use vstd::prelude::*;
use core::marker::PhantomData;
use crate::addr::Addr;
use crate::big_endian::DecodeBE;
use crate::dolphin::{min_size, Dolphin, MAX_STRING_LENGTH};
use crate::encoding::{c_prefix, shift_jis_decode};
use crate::mem_addr::{fits, spec_translate};
use crate::sms::SMSDolphin;
use crate::text::{dec_text, hex_bytes, hex_fixed, int_text, push_dec, push_int};
use crate::vt::class_text;

verus! {

/// A value with a canonical text form.
pub trait Render {
    /// The text form.
    spec fn spec_render(&self) -> Seq<char>;

    /// The text form.
    fn render(&self) -> (r: String)
        ensures
            r@ == self.spec_render(),
    ;
}

impl Render for u8 {
    open spec fn spec_render(&self) -> Seq<char> {
        dec_text(*self as nat)
    }

    fn render(&self) -> (r: String) {
        let mut s = String::new();
        push_dec(&mut s, *self as u128);
        s
    }
}

impl Render for u16 {
    open spec fn spec_render(&self) -> Seq<char> {
        dec_text(*self as nat)
    }

    fn render(&self) -> (r: String) {
        let mut s = String::new();
        push_dec(&mut s, *self as u128);
        s
    }
}

impl Render for u32 {
    open spec fn spec_render(&self) -> Seq<char> {
        dec_text(*self as nat)
    }

    fn render(&self) -> (r: String) {
        let mut s = String::new();
        push_dec(&mut s, *self as u128);
        s
    }
}

impl Render for i8 {
    open spec fn spec_render(&self) -> Seq<char> {
        int_text(*self as int)
    }

    fn render(&self) -> (r: String) {
        let mut s = String::new();
        push_int(&mut s, *self as i128);
        s
    }
}

impl Render for i16 {
    open spec fn spec_render(&self) -> Seq<char> {
        int_text(*self as int)
    }

    fn render(&self) -> (r: String) {
        let mut s = String::new();
        push_int(&mut s, *self as i128);
        s
    }
}

impl Render for i32 {
    open spec fn spec_render(&self) -> Seq<char> {
        int_text(*self as int)
    }

    fn render(&self) -> (r: String) {
        let mut s = String::new();
        push_int(&mut s, *self as i128);
        s
    }
}

impl Render for Addr {
    open spec fn spec_render(&self) -> Seq<char> {
        hex_fixed(self.0 as nat, 8)
    }

    fn render(&self) -> (r: String) {
        self.to_string()
    }
}

/// What a field reader produces: text, or the bits of a 32-bit float, whose
/// text form is left to the caller.
pub enum FieldValue {
    Text(String),
    F32Bits(u32),
}

/// The text of a value, when it is text.
pub open spec fn text_value(v: FieldValue) -> Option<Seq<char>> {
    match v {
        FieldValue::Text(s) => Some(s@),
        FieldValue::F32Bits(_) => None,
    }
}

/// Decodes a field at an address into a displayable value.
pub trait FieldReader {
    fn read<D: Dolphin>(&self, d: &SMSDolphin<D>, addr: Addr) -> (r: Option<FieldValue>);
}

/// Reads a big-endian scalar and shows its canonical text.
pub struct PrimitiveFieldReader<T> {
    phantom: PhantomData<T>,
}

impl<T> PrimitiveFieldReader<T> {
    pub fn new() -> Self {
        PrimitiveFieldReader { phantom: PhantomData }
    }
}

impl<T: DecodeBE + Render> FieldReader for PrimitiveFieldReader<T> {
    fn read<D: Dolphin>(&self, d: &SMSDolphin<D>, addr: Addr) -> (r: Option<FieldValue>)
        ensures
            r matches Some(v) ==> exists|b: Seq<u8>|
                b.len() == T::spec_size() && text_value(v) == Some(T::spec_decode(b).spec_render()),
            !fits(addr.0, T::spec_size() as int) ==> r is None,
            fits(addr.0, T::spec_size() as int) && d.serves(spec_translate(addr.0)->Some_0) ==> r is Some,
    {
        match d.read::<T>(addr) {
            Some(x) => Some(FieldValue::Text(x.render())),
            None => None,
        }
    }
}

/// Reads a 4-byte float; its bits are handed on for display.
pub struct F32FieldReader;

impl FieldReader for F32FieldReader {
    fn read<D: Dolphin>(&self, d: &SMSDolphin<D>, addr: Addr) -> (r: Option<FieldValue>)
        ensures
            r matches Some(v) ==> v is F32Bits,
            !fits(addr.0, 4) ==> r is None,
            fits(addr.0, 4) && d.serves(spec_translate(addr.0)->Some_0) ==> r is Some,
    {
        match d.read::<u32>(addr) {
            Some(x) => Some(FieldValue::F32Bits(x)),
            None => None,
        }
    }
}

/// Reads a pointer, then the zero-terminated Shift_JIS string it points to.
pub struct StringFieldReader;

impl FieldReader for StringFieldReader {
    fn read<D: Dolphin>(&self, d: &SMSDolphin<D>, addr: Addr) -> (r: Option<FieldValue>)
        ensures
            r matches Some(v) ==> v is Text,
            r matches Some(v) ==> exists|b: Seq<u8>| b.len() <= MAX_STRING_LENGTH && text_value(v)
                == shift_jis_decode(c_prefix(b)),
            !fits(addr.0, 4) ==> r is None,
    {
        match d.read::<Addr>(addr) {
            Some(a) => match d.read_str(a) {
                Some(s) => Some(FieldValue::Text(s)),
                None => None,
            },
            None => None,
        }
    }
}

/// Reads a pointer to an object, then the type-descriptor address that opens
/// the object, and shows the class name registered for it.
pub struct ClassNameReader;

impl FieldReader for ClassNameReader {
    fn read<D: Dolphin>(&self, d: &SMSDolphin<D>, addr: Addr) -> (r: Option<FieldValue>)
        ensures
            r matches Some(v) ==> exists|a: u32| text_value(v) == Some(class_text(d.spec_classes(), a)),
            !fits(addr.0, 4) ==> r is None,
    {
        match d.read::<Addr>(addr) {
            Some(obj) => match d.read::<Addr>(obj) {
                Some(vt) => Some(FieldValue::Text(d.get_class_string(vt))),
                None => None,
            },
            None => None,
        }
    }
}

/// Reads a fixed number of bytes and shows them in hexadecimal.
pub struct HexFieldReader(pub usize);

impl FieldReader for HexFieldReader {
    fn read<D: Dolphin>(&self, d: &SMSDolphin<D>, addr: Addr) -> (r: Option<FieldValue>)
        ensures
            r matches Some(v) ==> exists|b: Seq<u8>| b.len() == self.0 && text_value(v) == Some(hex_bytes(b)),
            !fits(addr.0, self.0 as int) ==> r is None,
            fits(addr.0, self.0 as int) && d.serves(spec_translate(addr.0)->Some_0) ==> r is Some,
    {
        match d.dump_hex(addr, self.0) {
            Some(s) => Some(FieldValue::Text(s)),
            None => None,
        }
    }
}

/// The readers that a resolved field can use.
#[derive(Clone, Copy, Debug, PartialEq, Eq, Structural)]
pub enum ClassFieldReader {
    U8,
    U16,
    U32,
    S8,
    S16,
    S32,
    Address,
    Float,
    Str,
    ClassName,
    Hex(usize),
}

/// Bytes a reader reads at the field's own address.
pub open spec fn reader_width(r: ClassFieldReader) -> int {
    match r {
        ClassFieldReader::U8 => 1,
        ClassFieldReader::U16 => 2,
        ClassFieldReader::S8 => 1,
        ClassFieldReader::S16 => 2,
        ClassFieldReader::Hex(n) => n as int,
        _ => 4,
    }
}

/// The bytes `b` shown as a `T`.
pub open spec fn shown_as<T: DecodeBE + Render>(b: Seq<u8>) -> Seq<char> {
    T::spec_decode(b).spec_render()
}

/// What a reader can produce: the text of some bytes of its width, read as
/// its type; a float's bits; text; or the class-name text of some address.
pub open spec fn produced_by(r: ClassFieldReader, v: FieldValue, classes: Seq<(u32, Seq<char>)>) -> bool {
    match r {
        ClassFieldReader::U8 => exists|b: Seq<u8>| b.len() == 1 && text_value(v) == Some(shown_as::<u8>(b)),
        ClassFieldReader::U16 => exists|b: Seq<u8>| b.len() == 2 && text_value(v) == Some(shown_as::<u16>(b)),
        ClassFieldReader::U32 => exists|b: Seq<u8>| b.len() == 4 && text_value(v) == Some(shown_as::<u32>(b)),
        ClassFieldReader::S8 => exists|b: Seq<u8>| b.len() == 1 && text_value(v) == Some(shown_as::<i8>(b)),
        ClassFieldReader::S16 => exists|b: Seq<u8>| b.len() == 2 && text_value(v) == Some(shown_as::<i16>(b)),
        ClassFieldReader::S32 => exists|b: Seq<u8>| b.len() == 4 && text_value(v) == Some(shown_as::<i32>(b)),
        ClassFieldReader::Address => exists|b: Seq<u8>| b.len() == 4 && text_value(v) == Some(shown_as::<Addr>(b)),
        ClassFieldReader::Float => v is F32Bits,
        ClassFieldReader::Str => v is Text,
        ClassFieldReader::ClassName => exists|a: u32| text_value(v) == Some(class_text(classes, a)),
        ClassFieldReader::Hex(n) => exists|b: Seq<u8>| b.len() == n && text_value(v) == Some(hex_bytes(b)),
    }
}

/// Readers that read only at the field's own address, and so succeed
/// wherever their bytes fit and the backend serves them.
pub open spec fn reads_in_place(r: ClassFieldReader) -> bool {
    !(r is Str || r is ClassName)
}

impl ClassFieldReader {
    /// Reads the field at `addr` with this reader.
    pub fn read<D: Dolphin>(&self, d: &SMSDolphin<D>, addr: Addr) -> (r: Option<FieldValue>)
        ensures
            r matches Some(v) ==> produced_by(*self, v, d.spec_classes()),
            !fits(addr.0, reader_width(*self)) ==> r is None,
            reads_in_place(*self) && fits(addr.0, reader_width(*self)) && d.serves(
                spec_translate(addr.0)->Some_0,
            ) ==> r is Some,
    {
        match self {
            ClassFieldReader::U8 => PrimitiveFieldReader::<u8>::new().read(d, addr),
            ClassFieldReader::U16 => PrimitiveFieldReader::<u16>::new().read(d, addr),
            ClassFieldReader::U32 => PrimitiveFieldReader::<u32>::new().read(d, addr),
            ClassFieldReader::S8 => PrimitiveFieldReader::<i8>::new().read(d, addr),
            ClassFieldReader::S16 => PrimitiveFieldReader::<i16>::new().read(d, addr),
            ClassFieldReader::S32 => PrimitiveFieldReader::<i32>::new().read(d, addr),
            ClassFieldReader::Address => PrimitiveFieldReader::<Addr>::new().read(d, addr),
            ClassFieldReader::Float => F32FieldReader.read(d, addr),
            ClassFieldReader::Str => StringFieldReader.read(d, addr),
            ClassFieldReader::ClassName => ClassNameReader.read(d, addr),
            ClassFieldReader::Hex(n) => HexFieldReader(*n).read(d, addr),
        }
    }
}

} // verus!
