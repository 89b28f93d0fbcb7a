use vstd::prelude::*;
use crate::addr::{compose_chain, AddrOffsets};
use crate::field_reader::ClassFieldReader;
use crate::text::{contains_char, ends_with_char, replace_all, replace_char, same_text};

verus! {

/// A per-field display format that overrides the type's own reader.
#[derive(Clone, Copy, Debug, PartialEq, Eq, Structural)]
pub enum ObjParamsOffsetEntryFormat {
    Hex,
}

impl ObjParamsOffsetEntryFormat {
    /// No override.
    pub fn none() -> (r: Option<ObjParamsOffsetEntryFormat>)
        ensures
            r is None,
    {
        None
    }

    /// The format a catalog names: only `"hex"` is known.
    pub fn parse(s: &str) -> (r: Option<ObjParamsOffsetEntryFormat>)
        ensures
            r is Some <==> s@ == "hex"@,
            r matches Some(f) ==> f == ObjParamsOffsetEntryFormat::Hex,
    {
        if same_text(s, "hex") {
            Some(ObjParamsOffsetEntryFormat::Hex)
        } else {
            None
        }
    }

    /// The name of the format.
    pub fn to_string(&self) -> (r: String)
        ensures
            r@ == "hex"@,
    {
        "hex".to_owned()
    }
}

/// What a field declaration holds, as plain values.
pub struct FieldDeclView {
    pub offset: (u32, Seq<u32>),
    pub type_: Seq<char>,
    pub name: Seq<char>,
    pub notes: Seq<char>,
    pub format: Option<ObjParamsOffsetEntryFormat>,
    pub hidden: Option<bool>,
}

/// One field of a class declaration in the catalog.
pub struct ObjParamsOffsetEntry {
    pub offset: AddrOffsets,
    pub type_: String,
    pub name: String,
    pub notes: String,
    pub format: Option<ObjParamsOffsetEntryFormat>,
    pub hidden: Option<bool>,
}

impl View for ObjParamsOffsetEntry {
    type V = FieldDeclView;

    open spec fn view(&self) -> FieldDeclView {
        FieldDeclView {
            offset: self.offset@,
            type_: self.type_@,
            name: self.name@,
            notes: self.notes@,
            format: self.format,
            hidden: self.hidden,
        }
    }
}

/// A resolved field, as plain values.
pub struct ClassFieldView {
    pub offset: (u32, Seq<u32>),
    pub type_: Seq<char>,
    pub name: Seq<char>,
    pub notes: Seq<char>,
    pub class: Seq<char>,
    pub reader: ClassFieldReader,
}

/// A field of a resolved class: where it lies from the class's base, what it
/// is called, the class that declared it, and the reader for it.
pub struct ClassField {
    pub offset: AddrOffsets,
    pub type_: String,
    pub name: String,
    pub notes: String,
    pub class: String,
    pub reader: ClassFieldReader,
}

impl View for ClassField {
    type V = ClassFieldView;

    open spec fn view(&self) -> ClassFieldView {
        ClassFieldView {
            offset: self.offset@,
            type_: self.type_@,
            name: self.name@,
            notes: self.notes@,
            class: self.class@,
            reader: self.reader,
        }
    }
}

impl Clone for ClassField {
    fn clone(&self) -> (r: Self)
        ensures
            r@ == self@,
    {
        ClassField {
            offset: self.offset.clone(),
            type_: self.type_.clone(),
            name: self.name.clone(),
            notes: self.notes.clone(),
            class: self.class.clone(),
            reader: self.reader,
        }
    }
}

/// A resolved type, as plain values.
pub enum ObjectTypeView {
    Primitive(ClassFieldReader),
    Class(Seq<ClassFieldView>),
}

/// A resolved type: one reader, or a flat list of fields.
pub enum ObjectType {
    Primitive(ClassFieldReader),
    Class(Vec<ClassField>),
}

/// The views of a list of fields.
pub open spec fn fields_view(v: Seq<ClassField>) -> Seq<ClassFieldView> {
    v.map_values(|f: ClassField| f@)
}

impl View for ObjectType {
    type V = ObjectTypeView;

    open spec fn view(&self) -> ObjectTypeView {
        match self {
            ObjectType::Primitive(r) => ObjectTypeView::Primitive(*r),
            ObjectType::Class(v) => ObjectTypeView::Class(fields_view(v@)),
        }
    }
}

/// Copies a list of fields.
pub fn clone_fields(v: &Vec<ClassField>) -> (r: Vec<ClassField>)
    ensures
        fields_view(r@) == fields_view(v@),
{
    let mut r: Vec<ClassField> = Vec::new();
    let mut i: usize = 0;
    while i < v.len()
        invariant
            i <= v@.len(),
            r@.len() == i,
            forall|j: int| 0 <= j < i ==> r@[j]@ == v@[j]@,
        decreases v@.len() - i,
    {
        let c = v[i].clone();
        r.push(c);
        i += 1;
    }
    assert(fields_view(r@) =~= fields_view(v@));
    r
}

impl Clone for ObjectType {
    fn clone(&self) -> (r: Self)
        ensures
            r@ == self@,
    {
        match self {
            ObjectType::Primitive(r) => ObjectType::Primitive(*r),
            ObjectType::Class(v) => ObjectType::Class(clone_fields(v)),
        }
    }
}

/// The optional view of an optional type.
pub open spec fn type_view(t: Option<ObjectType>) -> Option<ObjectTypeView> {
    match t {
        Some(t) => Some(t@),
        None => None,
    }
}

/// A class declaration of the catalog: the type name and its fields in order.
pub struct ClassDecl {
    pub name: String,
    pub offsets: Vec<ObjParamsOffsetEntry>,
}

/// The fields of a declaration, as plain values.
pub open spec fn decls_view(v: Seq<ObjParamsOffsetEntry>) -> Seq<FieldDeclView> {
    v.map_values(|e: ObjParamsOffsetEntry| e@)
}

/// A catalog as plain values: type names with their field declarations.
pub type CatalogView = Seq<(Seq<char>, Seq<FieldDeclView>)>;

/// The field declarations that the catalog gives a type name, if any.
pub open spec fn decls_of(cat: CatalogView, name: Seq<char>) -> Option<Seq<FieldDeclView>>
    decreases cat.len(),
{
    if cat.len() == 0 {
        None
    } else if cat[0].0 == name {
        Some(cat[0].1)
    } else {
        decls_of(cat.drop_first(), name)
    }
}

/// The catalog of class declarations; a name is declared at most once.
pub struct Catalog {
    classes: Vec<ClassDecl>,
}

impl View for Catalog {
    type V = CatalogView;

    closed spec fn view(&self) -> CatalogView {
        self.classes@.map_values(|c: ClassDecl| (c.name@, decls_view(c.offsets@)))
    }
}

impl Catalog {
    /// The empty catalog.
    pub fn new() -> (r: Catalog)
        ensures
            r@.len() == 0,
    {
        let r = Catalog { classes: Vec::new() };
        assert(r@ =~= CatalogView::empty());
        r
    }

    /// The number of declared classes.
    pub fn len(&self) -> (r: usize)
        ensures
            r == self@.len(),
    {
        self.classes.len()
    }

    /// The field declarations of a type name.
    pub fn get(&self, name: &str) -> (r: Option<&Vec<ObjParamsOffsetEntry>>)
        ensures
            r matches Some(v) ==> decls_of(self@, name@) == Some(decls_view(v@)),
            r is None ==> decls_of(self@, name@) is None,
    {
        match self.index_of(name) {
            Some(i) => Some(&self.classes[i].offsets),
            None => None,
        }
    }

    fn index_of(&self, name: &str) -> (r: Option<usize>)
        ensures
            r matches Some(i) ==> i < self@.len() && decls_of(self@, name@) == Some(self@[i as int].1)
                && self@[i as int].0 == name@ && forall|j: int| 0 <= j < i ==> self@[j].0 != name@,
            r is None ==> decls_of(self@, name@) is None && forall|j: int|
                0 <= j < self@.len() ==> self@[j].0 != name@,
    {
        let n = self.classes.len();
        let mut i: usize = 0;
        assert(self@.subrange(0, n as int) =~= self@);
        while i < n
            invariant
                n == self@.len(),
                i <= n,
                decls_of(self@, name@) == decls_of(self@.subrange(i as int, n as int), name@),
                forall|j: int| 0 <= j < i ==> self@[j].0 != name@,
            decreases n - i,
        {
            let ghost rest = self@.subrange(i as int, n as int);
            assert(rest.drop_first() =~= self@.subrange(i + 1, n as int));
            if same_text(self.classes[i].name.as_str(), name) {
                return Some(i);
            }
            i += 1;
        }
        None
    }

    /// Declares a class; a later declaration of the same name replaces the
    /// earlier one.
    pub fn insert(&mut self, decl: ClassDecl)
        ensures
            forall|n: Seq<char>| #[trigger] decls_of(final(self)@, n) == if n == decl.name@ {
                Some(decls_view(decl.offsets@))
            } else {
                decls_of(old(self)@, n)
            },
            final(self)@.len() == old(self)@.len() || final(self)@.len() == old(self)@.len() + 1,
    {
        let ghost name = decl.name@;
        let ghost fields = decls_view(decl.offsets@);
        match self.index_of(decl.name.as_str()) {
            Some(i) => {
                let ghost before = self@;
                self.classes.set(i, decl);
                assert(self@ =~= before.update(i as int, (name, fields)));
                assert forall|n: Seq<char>| #[trigger] decls_of(self@, n) == if n == name {
                    Some(fields)
                } else {
                    decls_of(before, n)
                } by {
                    lemma_decls_of_update(before, i as nat, name, fields, n);
                }
            },
            None => {
                let ghost before = self@;
                self.classes.push(decl);
                assert(self@ =~= before.push((name, fields)));
                assert forall|n: Seq<char>| #[trigger] decls_of(self@, n) == if n == name {
                    Some(fields)
                } else {
                    decls_of(before, n)
                } by {
                    lemma_decls_of_push(before, name, fields, n);
                }
            },
        }
    }
}

proof fn lemma_decls_of_update(cat: CatalogView, i: nat, name: Seq<char>, fields: Seq<FieldDeclView>, n: Seq<char>)
    requires
        i < cat.len(),
        cat[i as int].0 == name,
        forall|j: int| 0 <= j < i ==> cat[j].0 != name,
    ensures
        decls_of(cat.update(i as int, (name, fields)), n) == if n == name {
            Some(fields)
        } else {
            decls_of(cat, n)
        },
    decreases i,
{
    let c2 = cat.update(i as int, (name, fields));
    if i == 0 {
        assert(c2.drop_first() =~= cat.drop_first());
        assert(c2[0] == (name, fields));
    } else {
        assert(c2[0] == cat[0]);
        assert(cat[0].0 != name);
        assert(c2.drop_first() =~= cat.drop_first().update(i - 1, (name, fields)));
        lemma_decls_of_update(cat.drop_first(), (i - 1) as nat, name, fields, n);
    }
}

proof fn lemma_decls_of_push(cat: CatalogView, name: Seq<char>, fields: Seq<FieldDeclView>, n: Seq<char>)
    requires
        forall|j: int| 0 <= j < cat.len() ==> cat[j].0 != name,
    ensures
        decls_of(cat.push((name, fields)), n) == if n == name {
            Some(fields)
        } else {
            decls_of(cat, n)
        },
    decreases cat.len(),
{
    let c2 = cat.push((name, fields));
    if cat.len() > 0 {
        assert(c2[0] == cat[0]);
        assert(cat[0].0 != name);
        assert(c2.drop_first() =~= cat.drop_first().push((name, fields)));
        lemma_decls_of_push(cat.drop_first(), name, fields, n);
    } else {
        assert(c2.drop_first() =~= CatalogView::empty());
        assert(c2[0] == (name, fields));
        assert(decls_of(c2.drop_first(), n) is None);
    }
}

/// The reader of a built-in type name.
pub open spec fn builtin_reader(n: Seq<char>) -> Option<ClassFieldReader> {
    if n == seq!['u', '8'] {
        Some(ClassFieldReader::U8)
    } else if n == seq!['u', '1', '6'] {
        Some(ClassFieldReader::U16)
    } else if n == seq!['u', '3', '2'] {
        Some(ClassFieldReader::U32)
    } else if n == seq!['s', '8'] {
        Some(ClassFieldReader::S8)
    } else if n == seq!['s', '1', '6'] {
        Some(ClassFieldReader::S16)
    } else if n == seq!['s', '3', '2'] {
        Some(ClassFieldReader::S32)
    } else if n == seq!['f', 'l', 'o', 'a', 't'] {
        Some(ClassFieldReader::Float)
    } else if n == seq!['s', 't', 'r', 'i', 'n', 'g'] {
        Some(ClassFieldReader::Str)
    } else if n == seq!['v', 'o', 'i', 'd', '*'] {
        Some(ClassFieldReader::ClassName)
    } else {
        None
    }
}

/// The reader registered for a type shown in a given format.
pub open spec fn formatted_reader(t: Seq<char>, f: ObjParamsOffsetEntryFormat) -> Option<ClassFieldReader> {
    match f {
        ObjParamsOffsetEntryFormat::Hex => if t == seq!['u', '8'] {
            Some(ClassFieldReader::Hex(1))
        } else if t == seq!['u', '1', '6'] {
            Some(ClassFieldReader::Hex(2))
        } else if t == seq!['u', '3', '2'] {
            Some(ClassFieldReader::Hex(4))
        } else {
            None
        },
    }
}

/// A type name that ends with the pointer marker.
pub open spec fn is_pointer_name(n: Seq<char>) -> bool {
    n.len() > 0 && n.last() == '*'
}

/// The field that a declaration gives when it stands for itself.
pub open spec fn own_field(d: FieldDeclView, class: Seq<char>, reader: ClassFieldReader) -> ClassFieldView {
    ClassFieldView {
        offset: d.offset,
        type_: d.type_,
        name: d.name,
        notes: d.notes,
        class,
        reader,
    }
}

/// The name of a subfield inlined through a declaration: the declaration's
/// name with the subfield's name put in place of each `*`, or the subfield's
/// name when the declaration's name has no `*`.
pub open spec fn inlined_name(outer: Seq<char>, inner: Seq<char>) -> Seq<char> {
    if outer.contains('*') {
        replace_char(outer, '*', inner)
    } else {
        inner
    }
}

/// A subfield of an inlined class, placed through the declaration `d`.
pub open spec fn inline_field(d: FieldDeclView, sub: ClassFieldView) -> ClassFieldView {
    ClassFieldView {
        offset: compose_chain(d.offset, sub.offset),
        type_: sub.type_,
        name: inlined_name(d.name, sub.name),
        notes: sub.notes,
        class: sub.class,
        reader: sub.reader,
    }
}

/// How a type name resolves, with `fuel` levels of class inlining allowed;
/// `None` when they do not suffice. Built-in names take precedence; other
/// pointer names read an address; names that the catalog lacks read an
/// address too.
pub open spec fn spec_resolve(cat: CatalogView, name: Seq<char>, fuel: nat) -> Option<ObjectTypeView>
    decreases fuel, 0nat, 0nat,
{
    if builtin_reader(name) is Some {
        Some(ObjectTypeView::Primitive(builtin_reader(name)->Some_0))
    } else if is_pointer_name(name) {
        Some(ObjectTypeView::Primitive(ClassFieldReader::Address))
    } else {
        match decls_of(cat, name) {
            None => Some(ObjectTypeView::Primitive(ClassFieldReader::Address)),
            Some(decls) => if fuel == 0 {
                None
            } else {
                match spec_flatten(cat, name, decls, (fuel - 1) as nat) {
                    Some(fields) => Some(ObjectTypeView::Class(fields)),
                    None => None,
                }
            },
        }
    }
}

/// The fields that a class's declarations give, in order.
pub open spec fn spec_flatten(cat: CatalogView, class: Seq<char>, decls: Seq<FieldDeclView>, fuel: nat) -> Option<Seq<ClassFieldView>>
    decreases fuel, 2nat, decls.len(),
{
    if decls.len() == 0 {
        Some(Seq::empty())
    } else {
        match (spec_flatten(cat, class, decls.drop_last(), fuel), spec_field_entries(cat, class, decls.last(), fuel)) {
            (Some(a), Some(b)) => Some(a + b),
            _ => None,
        }
    }
}

/// The fields that one declaration gives: none when hidden; one, with the
/// override reader, when its format has one; one, when its type is a
/// primitive; else the inlined fields of its class.
pub open spec fn spec_field_entries(cat: CatalogView, class: Seq<char>, d: FieldDeclView, fuel: nat) -> Option<Seq<ClassFieldView>>
    decreases fuel, 1nat, 0nat,
{
    if d.hidden == Some(true) {
        Some(Seq::empty())
    } else if d.format is Some && formatted_reader(d.type_, d.format->Some_0) is Some {
        Some(seq![own_field(d, class, formatted_reader(d.type_, d.format->Some_0)->Some_0)])
    } else {
        match spec_resolve(cat, d.type_, fuel) {
            None => None,
            Some(ObjectTypeView::Primitive(r)) => Some(seq![own_field(d, class, r)]),
            Some(ObjectTypeView::Class(subs)) => Some(subs.map_values(|s: ClassFieldView| inline_field(d, s))),
        }
    }
}

/// How a type name resolves against a catalog: inlining may nest as deep as
/// the catalog has classes, since a longer chain of inlined classes must
/// repeat one. For the catalog's own classes this is `None` exactly when some
/// class inlines itself (`lemma_failure_is_cycle`).
pub open spec fn spec_type(cat: CatalogView, name: Seq<char>) -> Option<ObjectTypeView> {
    spec_resolve(cat, name, cat.len())
}

proof fn lemma_resolve_mono(cat: CatalogView, name: Seq<char>, f0: nat, f: nat)
    requires
        spec_resolve(cat, name, f0) is Some,
        f0 <= f,
    ensures
        spec_resolve(cat, name, f) == spec_resolve(cat, name, f0),
    decreases f0, 0nat, 0nat,
{
    if builtin_reader(name) is None && !is_pointer_name(name) {
        if let Some(decls) = decls_of(cat, name) {
            lemma_flatten_mono(cat, name, decls, (f0 - 1) as nat, (f - 1) as nat);
        }
    }
}

proof fn lemma_flatten_mono(cat: CatalogView, class: Seq<char>, decls: Seq<FieldDeclView>, f0: nat, f: nat)
    requires
        spec_flatten(cat, class, decls, f0) is Some,
        f0 <= f,
    ensures
        spec_flatten(cat, class, decls, f) == spec_flatten(cat, class, decls, f0),
    decreases f0, 2nat, decls.len(),
{
    if decls.len() > 0 {
        lemma_flatten_mono(cat, class, decls.drop_last(), f0, f);
        lemma_entries_mono(cat, class, decls.last(), f0, f);
    }
}

proof fn lemma_entries_mono(cat: CatalogView, class: Seq<char>, d: FieldDeclView, f0: nat, f: nat)
    requires
        spec_field_entries(cat, class, d, f0) is Some,
        f0 <= f,
    ensures
        spec_field_entries(cat, class, d, f) == spec_field_entries(cat, class, d, f0),
    decreases f0, 1nat, 0nat,
{
    if d.hidden != Some(true) && !(d.format is Some && formatted_reader(d.type_, d.format->Some_0) is Some) {
        lemma_resolve_mono(cat, d.type_, f0, f);
    }
}

fn builtin_reader_of(n: &str) -> (r: Option<ClassFieldReader>)
    ensures
        r == builtin_reader(n@),
{
    proof {
        reveal_strlit("u8");
        reveal_strlit("u16");
        reveal_strlit("u32");
        reveal_strlit("s8");
        reveal_strlit("s16");
        reveal_strlit("s32");
        reveal_strlit("float");
        reveal_strlit("string");
        reveal_strlit("void*");
    }
    if same_text(n, "u8") {
        assert("u8"@ =~= seq!['u', '8']);
        Some(ClassFieldReader::U8)
    } else if same_text(n, "u16") {
        assert("u16"@ =~= seq!['u', '1', '6']);
        Some(ClassFieldReader::U16)
    } else if same_text(n, "u32") {
        assert("u32"@ =~= seq!['u', '3', '2']);
        Some(ClassFieldReader::U32)
    } else if same_text(n, "s8") {
        assert("s8"@ =~= seq!['s', '8']);
        Some(ClassFieldReader::S8)
    } else if same_text(n, "s16") {
        assert("s16"@ =~= seq!['s', '1', '6']);
        Some(ClassFieldReader::S16)
    } else if same_text(n, "s32") {
        assert("s32"@ =~= seq!['s', '3', '2']);
        Some(ClassFieldReader::S32)
    } else if same_text(n, "float") {
        assert("float"@ =~= seq!['f', 'l', 'o', 'a', 't']);
        Some(ClassFieldReader::Float)
    } else if same_text(n, "string") {
        assert("string"@ =~= seq!['s', 't', 'r', 'i', 'n', 'g']);
        Some(ClassFieldReader::Str)
    } else if same_text(n, "void*") {
        assert("void*"@ =~= seq!['v', 'o', 'i', 'd', '*']);
        Some(ClassFieldReader::ClassName)
    } else {
        assert("u8"@ =~= seq!['u', '8']);
        assert("u16"@ =~= seq!['u', '1', '6']);
        assert("u32"@ =~= seq!['u', '3', '2']);
        assert("s8"@ =~= seq!['s', '8']);
        assert("s16"@ =~= seq!['s', '1', '6']);
        assert("s32"@ =~= seq!['s', '3', '2']);
        assert("float"@ =~= seq!['f', 'l', 'o', 'a', 't']);
        assert("string"@ =~= seq!['s', 't', 'r', 'i', 'n', 'g']);
        assert("void*"@ =~= seq!['v', 'o', 'i', 'd', '*']);
        None
    }
}

fn formatted_reader_of(t: &str, f: ObjParamsOffsetEntryFormat) -> (r: Option<ClassFieldReader>)
    ensures
        r == formatted_reader(t@, f),
{
    proof {
        reveal_strlit("u8");
        reveal_strlit("u16");
        reveal_strlit("u32");
    }
    assert("u8"@ =~= seq!['u', '8']);
    assert("u16"@ =~= seq!['u', '1', '6']);
    assert("u32"@ =~= seq!['u', '3', '2']);
    match f {
        ObjParamsOffsetEntryFormat::Hex => if same_text(t, "u8") {
            Some(ClassFieldReader::Hex(1))
        } else if same_text(t, "u16") {
            Some(ClassFieldReader::Hex(2))
        } else if same_text(t, "u32") {
            Some(ClassFieldReader::Hex(4))
        } else {
            None
        },
    }
}

fn make_own_field(d: &ObjParamsOffsetEntry, class: &str, reader: ClassFieldReader) -> (r: ClassField)
    ensures
        r@ == own_field(d@, class@, reader),
{
    ClassField {
        offset: d.offset.clone(),
        type_: d.type_.clone(),
        name: d.name.clone(),
        notes: d.notes.clone(),
        class: class.to_owned(),
        reader,
    }
}

fn make_inlined_field(d: &ObjParamsOffsetEntry, sub: &ClassField) -> (r: ClassField)
    ensures
        r@ == inline_field(d@, sub@),
{
    let name = if contains_char(d.name.as_str(), '*') {
        replace_all(d.name.as_str(), '*', sub.name.as_str())
    } else {
        sub.name.clone()
    };
    ClassField {
        offset: d.offset.compose(&sub.offset),
        type_: sub.type_.clone(),
        name,
        notes: sub.notes.clone(),
        class: sub.class.clone(),
        reader: sub.reader,
    }
}

/// Resolutions found so far, each with the inlining depth it was found at.
type Memo = Vec<(String, ObjectType, usize)>;

spec fn memo_valid(cat: CatalogView, m: Seq<(String, ObjectType, usize)>) -> bool {
    forall|i: int| 0 <= i < m.len() ==> spec_resolve(cat, #[trigger] m[i].0@, m[i].2 as nat) == Some(m[i].1@)
        && m[i].2 <= cat.len()
}

fn memo_lookup(Ghost(cat): Ghost<CatalogView>, memo: &Memo, name: &str, fuel: usize) -> (r: Option<ObjectType>)
    requires
        memo_valid(cat, memo@),
    ensures
        r matches Some(t) ==> spec_resolve(cat, name@, fuel as nat) == Some(t@),
{
    let mut i: usize = 0;
    while i < memo.len()
        invariant
            i <= memo@.len(),
            memo_valid(cat, memo@),
        decreases memo@.len() - i,
    {
        if memo[i].2 <= fuel && same_text(memo[i].0.as_str(), name) {
            proof {
                assert(spec_resolve(cat, memo@[i as int].0@, memo@[i as int].2 as nat) == Some(memo@[i as int].1@));
                lemma_resolve_mono(cat, name@, memo@[i as int].2 as nat, fuel as nat);
            }
            return Some(memo[i].1.clone());
        }
        i += 1;
    }
    None
}

proof fn lemma_flatten_prefix_none(cat: CatalogView, class: Seq<char>, decls: Seq<FieldDeclView>, k: nat, fuel: nat)
    requires
        k <= decls.len(),
        spec_flatten(cat, class, decls.subrange(0, k as int), fuel) is None,
    ensures
        spec_flatten(cat, class, decls, fuel) is None,
    decreases decls.len(),
{
    if k == decls.len() {
        assert(decls.subrange(0, k as int) =~= decls);
    } else {
        assert(decls.drop_last().subrange(0, k as int) =~= decls.subrange(0, k as int));
        lemma_flatten_prefix_none(cat, class, decls.drop_last(), k, fuel);
    }
}

fn push_memo(Ghost(cat): Ghost<CatalogView>, memo: &mut Memo, name: &str, t: &ObjectType, fuel: usize)
    requires
        memo_valid(cat, old(memo)@),
        spec_resolve(cat, name@, fuel as nat) == Some(t@),
        fuel <= cat.len(),
    ensures
        memo_valid(cat, final(memo)@),
{
    let ghost m0 = memo@;
    memo.push((name.to_owned(), t.clone(), fuel));
    assert forall|k: int| 0 <= k < memo@.len() implies spec_resolve(cat, #[trigger] memo@[k].0@, memo@[k].2 as nat) == Some(memo@[k].1@) && memo@[k].2 <= cat.len() by {
        if k < memo@.len() - 1 {
            assert(memo@[k] == m0[k]);
        }
    }
}

fn append_fields(dst: &mut Vec<ClassField>, src: Vec<ClassField>)
    ensures
        fields_view(final(dst)@) == fields_view(old(dst)@) + fields_view(src@),
{
    let ghost s0 = src@;
    let ghost d0 = dst@;
    let mut src = src;
    dst.append(&mut src);
    assert(dst@ == d0 + s0);
    assert(fields_view(dst@) =~= fields_view(d0) + fields_view(s0));
}

fn resolve_type(catalog: &Catalog, memo: &mut Memo, name: &str, fuel: usize) -> (r: Option<ObjectType>)
    requires
        memo_valid(catalog@, old(memo)@),
        fuel <= catalog@.len(),
    ensures
        memo_valid(catalog@, final(memo)@),
        type_view(r) == spec_resolve(catalog@, name@, fuel as nat),
    decreases fuel, 1nat,
{
    let ghost cat = catalog@;
    if let Some(r) = builtin_reader_of(name) {
        return Some(ObjectType::Primitive(r));
    }
    if let Some(t) = memo_lookup(Ghost(cat), memo, name, fuel) {
        return Some(t);
    }
    if ends_with_char(name, '*') {
        return Some(ObjectType::Primitive(ClassFieldReader::Address));
    }
    match catalog.get(name) {
        None => {
            let t = ObjectType::Primitive(ClassFieldReader::Address);
            push_memo(Ghost(cat), memo, name, &t, 0);
            Some(t)
        },
        Some(decls) => {
            if fuel == 0 {
                return None;
            }
            let ghost dv = decls_view(decls@);
            let mut fields: Vec<ClassField> = Vec::new();
            let mut i: usize = 0;
            while i < decls.len()
                invariant
                    i <= decls@.len(),
                    dv == decls_view(decls@),
                    decls_of(cat, name@) == Some(dv),
                    builtin_reader(name@) is None,
                    !is_pointer_name(name@),
                    cat == catalog@,
                    fuel > 0,
                    fuel <= cat.len(),
                    memo_valid(cat, memo@),
                    spec_flatten(cat, name@, dv.subrange(0, i as int), (fuel - 1) as nat) == Some(fields_view(fields@)),
                decreases decls@.len() - i,
            {
                let ghost pre = dv.subrange(0, i as int);
                let ghost next = dv.subrange(0, i + 1);
                assert(next.drop_last() =~= pre);
                assert(next.last() == decls@[i as int]@);
                match field_entries(catalog, memo, name, &decls[i], fuel - 1) {
                    Some(more) => {
                        append_fields(&mut fields, more);
                    },
                    None => {
                        assert(spec_field_entries(cat, name@, next.last(), (fuel - 1) as nat) is None);
                        assert(spec_flatten(cat, name@, next, (fuel - 1) as nat) is None);
                        proof {
                            lemma_flatten_prefix_none(cat, name@, dv, (i + 1) as nat, (fuel - 1) as nat);
                        }
                        assert(spec_flatten(cat, name@, dv, (fuel - 1) as nat) is None);
                        return None;
                    },
                }
                i += 1;
            }
            assert(dv.subrange(0, decls@.len() as int) =~= dv);
            let t = ObjectType::Class(fields);
            push_memo(Ghost(cat), memo, name, &t, fuel);
            Some(t)
        },
    }
}

fn field_entries(catalog: &Catalog, memo: &mut Memo, class: &str, d: &ObjParamsOffsetEntry, fuel: usize) -> (r: Option<Vec<ClassField>>)
    requires
        memo_valid(catalog@, old(memo)@),
        fuel <= catalog@.len(),
    ensures
        memo_valid(catalog@, final(memo)@),
        match r {
            Some(v) => spec_field_entries(catalog@, class@, d@, fuel as nat) == Some(fields_view(v@)),
            None => spec_field_entries(catalog@, class@, d@, fuel as nat) is None,
        },
    decreases fuel, 2nat,
{
    let hidden = match d.hidden {
        Some(h) => h,
        None => false,
    };
    if hidden {
        let v: Vec<ClassField> = Vec::new();
        assert(fields_view(v@) =~= Seq::<ClassFieldView>::empty());
        return Some(v);
    }
    let special = match d.format {
        Some(f) => formatted_reader_of(d.type_.as_str(), f),
        None => None,
    };
    if let Some(r) = special {
        let mut v: Vec<ClassField> = Vec::new();
        v.push(make_own_field(d, class, r));
        assert(fields_view(v@) =~= seq![own_field(d@, class@, r)]);
        return Some(v);
    }
    match resolve_type(catalog, memo, d.type_.as_str(), fuel) {
        None => None,
        Some(ObjectType::Primitive(r)) => {
            let mut v: Vec<ClassField> = Vec::new();
            v.push(make_own_field(d, class, r));
            assert(fields_view(v@) =~= seq![own_field(d@, class@, r)]);
            Some(v)
        },
        Some(ObjectType::Class(subs)) => {
            let mut v: Vec<ClassField> = Vec::new();
            let mut j: usize = 0;
            while j < subs.len()
                invariant
                    j <= subs@.len(),
                    v@.len() == j,
                    forall|k: int| 0 <= k < j ==> #[trigger] v@[k]@ == inline_field(d@, subs@[k]@),
                decreases subs@.len() - j,
            {
                v.push(make_inlined_field(d, &subs[j]));
                j += 1;
            }
            assert(fields_view(v@) =~= fields_view(subs@).map_values(|s: ClassFieldView| inline_field(d@, s)));
            Some(v)
        },
    }
}

/// The resolution that a table gives a name: its first entry for it.
pub open spec fn table_lookup(t: Seq<(Seq<char>, ObjectTypeView)>, n: Seq<char>) -> Option<ObjectTypeView>
    decreases t.len(),
{
    if t.len() == 0 {
        None
    } else if t[0].0 == n {
        Some(t[0].1)
    } else {
        table_lookup(t.drop_first(), n)
    }
}

/// The names that are built in.
pub open spec fn builtin_names() -> Seq<Seq<char>> {
    seq![
        seq!['u', '8'],
        seq!['u', '1', '6'],
        seq!['u', '3', '2'],
        seq!['s', '8'],
        seq!['s', '1', '6'],
        seq!['s', '3', '2'],
        seq!['f', 'l', 'o', 'a', 't'],
        seq!['s', 't', 'r', 'i', 'n', 'g'],
        seq!['v', 'o', 'i', 'd', '*'],
    ]
}

/// Why a catalog could not be resolved.
#[derive(Debug)]
pub enum ObjParamsError {
    /// Resolving the named class runs into a class that inlines itself,
    /// directly or through other classes.
    InlineCycle(String),
}

/// The resolved type graph of a catalog: each built-in name, each declared
/// class and each unknown name that a field refers to, with its resolution.
pub struct ObjParams {
    types: Vec<(String, ObjectType)>,
    catalog: Ghost<CatalogView>,
}

/// The views of a table's entries.
pub open spec fn table_view(v: Seq<(String, ObjectType)>) -> Seq<(Seq<char>, ObjectTypeView)> {
    v.map_values(|e: (String, ObjectType)| (e.0@, e.1@))
}

/// Every entry of the table is the resolution of its name, and every built-in
/// name and every declared class that is not a pointer name has an entry.
/// Every unknown name that a declaration refers to also has an entry, and no
/// other name has one.
pub open spec fn table_complete(cat: CatalogView, t: Seq<(Seq<char>, ObjectTypeView)>) -> bool {
    &&& forall|i: int| 0 <= i < t.len() ==> spec_type(cat, #[trigger] t[i].0) == Some(t[i].1)
    &&& forall|n: Seq<char>| builtin_reader(n) is Some ==> #[trigger] table_lookup(t, n) is Some
    &&& forall|i: int| 0 <= i < cat.len() && !is_pointer_name(cat[i].0) ==> table_lookup(t, #[trigger] cat[i].0) is Some
    &&& forall|n: Seq<char>| referenced_unknown(cat, n) ==> #[trigger] table_lookup(t, n) is Some
    &&& forall|i: int| 0 <= i < t.len() ==> graph_key(cat, #[trigger] t[i].0)
}

/// A declaration whose type is resolved: shown, with no format override.
pub open spec fn resolves_its_type(d: FieldDeclView) -> bool {
    d.hidden != Some(true) && !(d.format is Some && formatted_reader(d.type_, d.format->Some_0) is Some)
}

/// A name that is not built in, not a pointer name, and not declared.
pub open spec fn is_unknown_name(cat: CatalogView, n: Seq<char>) -> bool {
    builtin_reader(n) is None && !is_pointer_name(n) && decls_of(cat, n) is None
}

/// An unknown name that a resolved declaration of a class refers to.
pub open spec fn referenced_unknown(cat: CatalogView, n: Seq<char>) -> bool {
    is_unknown_name(cat, n) && exists|c: Seq<char>, k: int|
        is_class_name(cat, c) && 0 <= k < decls_of(cat, c)->Some_0.len() && (#[trigger] decls_of(cat, c)->Some_0[k]).type_ == n
            && resolves_its_type(decls_of(cat, c)->Some_0[k])
}

/// The names that the resolved graph of a catalog holds: the built-in names,
/// the declared classes, and the unknown names that their fields refer to.
pub open spec fn graph_key(cat: CatalogView, n: Seq<char>) -> bool {
    builtin_reader(n) is Some || is_class_name(cat, n) || referenced_unknown(cat, n)
}

proof fn lemma_lookup_some_index(t: Seq<(Seq<char>, ObjectTypeView)>, n: Seq<char>) -> (k: int)
    requires
        table_lookup(t, n) is Some,
    ensures
        0 <= k < t.len() && t[k].0 == n,
    decreases t.len(),
{
    if t[0].0 == n {
        0
    } else {
        let j = lemma_lookup_some_index(t.drop_first(), n);
        j + 1
    }
}

/// A complete table holds an entry for exactly the names of the graph, each
/// the resolution of its name: so two graphs resolved from one catalog agree
/// on every name.
pub proof fn lemma_complete_tables_agree(cat: CatalogView, t1: Seq<(Seq<char>, ObjectTypeView)>, t2: Seq<(Seq<char>, ObjectTypeView)>)
    requires
        table_complete(cat, t1),
        table_complete(cat, t2),
    ensures
        forall|n: Seq<char>| (#[trigger] table_lookup(t1, n) is Some) <==> graph_key(cat, n),
        forall|n: Seq<char>| #[trigger] table_lookup(t1, n) == table_lookup(t2, n),
{
    assert forall|n: Seq<char>| (#[trigger] table_lookup(t1, n) is Some) <==> graph_key(cat, n) by {
        lemma_complete_keys(cat, t1, n);
    }
    assert forall|n: Seq<char>| #[trigger] table_lookup(t1, n) == table_lookup(t2, n) by {
        lemma_complete_keys(cat, t1, n);
        lemma_complete_keys(cat, t2, n);
        if table_lookup(t1, n) is Some {
            let k1 = lemma_lookup_some_index(t1, n);
            let k2 = lemma_lookup_some_index(t2, n);
            lemma_lookup_first(t1, n);
            lemma_lookup_first(t2, n);
        }
    }
}

proof fn lemma_lookup_first(t: Seq<(Seq<char>, ObjectTypeView)>, n: Seq<char>)
    requires
        table_lookup(t, n) is Some,
    ensures
        exists|k: int| 0 <= k < t.len() && t[k].0 == n && table_lookup(t, n) == Some(t[k].1),
    decreases t.len(),
{
    if t[0].0 != n {
        lemma_lookup_first(t.drop_first(), n);
        let k = choose|k: int| 0 <= k < t.drop_first().len() && t.drop_first()[k].0 == n && table_lookup(t.drop_first(), n) == Some(t.drop_first()[k].1);
        assert(t[k + 1] == t.drop_first()[k]);
    } else {
        assert(t[0].0 == n);
    }
}

proof fn lemma_complete_keys(cat: CatalogView, t: Seq<(Seq<char>, ObjectTypeView)>, n: Seq<char>)
    requires
        table_complete(cat, t),
    ensures
        table_lookup(t, n) is Some <==> graph_key(cat, n),
        table_lookup(t, n) is Some ==> table_lookup(t, n) == spec_type(cat, n),
{
    if table_lookup(t, n) is Some {
        let k = lemma_lookup_some_index(t, n);
        assert(graph_key(cat, t[k].0));
        lemma_lookup_first(t, n);
        let j = choose|j: int| 0 <= j < t.len() && t[j].0 == n && table_lookup(t, n) == Some(t[j].1);
        assert(spec_type(cat, t[j].0) == Some(t[j].1));
    }
    if graph_key(cat, n) {
        if builtin_reader(n) is None && is_class_name(cat, n) {
            let i = lemma_decls_of_index(cat, n);
            assert(table_lookup(t, cat[i].0) is Some);
        }
    }
}

impl ObjParams {
    #[verifier::type_invariant]
    spec fn inv(self) -> bool {
        table_complete(self.catalog@, table_view(self.types@))
    }

    /// The catalog the graph was resolved from.
    pub closed spec fn spec_catalog(self) -> CatalogView {
        self.catalog@
    }

    /// The entries of the graph.
    pub closed spec fn table(self) -> Seq<(Seq<char>, ObjectTypeView)> {
        table_view(self.types@)
    }

    /// The entry for a type name, if the graph holds one.
    pub fn get(&self, name: &str) -> (r: Option<&ObjectType>)
        ensures
            r matches Some(t) ==> table_lookup(self.table(), name@) == Some(t@) && spec_type(
                self.spec_catalog(),
                name@,
            ) == Some(t@),
            r is None ==> table_lookup(self.table(), name@) is None,
    {
        proof {
            use_type_invariant(self);
        }
        let n = self.types.len();
        let ghost t = self.table();
        let mut i: usize = 0;
        assert(t.subrange(0, n as int) =~= t);
        while i < n
            invariant
                n == self.types@.len(),
                t == self.table(),
                table_complete(self.spec_catalog(), t),
                i <= n,
                table_lookup(t, name@) == table_lookup(t.subrange(i as int, n as int), name@),
            decreases n - i,
        {
            let ghost rest = t.subrange(i as int, n as int);
            assert(rest.drop_first() =~= t.subrange(i + 1, n as int));
            if same_text(self.types[i].0.as_str(), name) {
                assert(t[i as int].0 == name@);
                assert(spec_type(self.spec_catalog(), t[i as int].0) == Some(t[i as int].1));
                return Some(&self.types[i].1);
            }
            i += 1;
        }
        None
    }

    /// The resolution of any type name: its entry, or, for a name the graph
    /// lacks, the reader that shows a raw address.
    pub fn resolve(&self, name: &str) -> (r: ObjectType)
        ensures
            spec_type(self.spec_catalog(), name@) == Some(r@),
    {
        proof {
            use_type_invariant(self);
        }
        match self.get(name) {
            Some(t) => t.clone(),
            None => {
                let ghost cat = self.spec_catalog();
                proof {
                    if builtin_reader(name@) is Some {
                        assert(table_lookup(self.table(), name@) is Some);
                    }
                    if !is_pointer_name(name@) && decls_of(cat, name@) is Some {
                        let i = lemma_decls_of_index(cat, name@);
                        assert(table_lookup(self.table(), cat[i].0) is Some);
                    }
                }
                ObjectType::Primitive(ClassFieldReader::Address)
            },
        }
    }
}

proof fn lemma_decls_of_at(cat: CatalogView, i: int)
    requires
        0 <= i < cat.len(),
    ensures
        decls_of(cat, cat[i].0) is Some,
    decreases i,
{
    if i > 0 && cat[0].0 != cat[i].0 {
        assert(cat.drop_first()[i - 1] == cat[i]);
        lemma_decls_of_at(cat.drop_first(), i - 1);
    }
}

proof fn lemma_decls_of_index(cat: CatalogView, n: Seq<char>) -> (i: int)
    requires
        decls_of(cat, n) is Some,
    ensures
        0 <= i < cat.len() && cat[i].0 == n,
    decreases cat.len(),
{
    if cat[0].0 == n {
        0
    } else {
        let j = lemma_decls_of_index(cat.drop_first(), n);
        j + 1
    }
}

proof fn lemma_lookup_index(t: Seq<(Seq<char>, ObjectTypeView)>, i: int)
    requires
        0 <= i < t.len(),
    ensures
        table_lookup(t, t[i].0) is Some,
    decreases i,
{
    if i > 0 && t[0].0 != t[i].0 {
        assert(t.drop_first()[i - 1] == t[i]);
        lemma_lookup_index(t.drop_first(), i - 1);
    }
}

/// The table holds an entry for `n`.
spec fn has_entry(t: Seq<(Seq<char>, ObjectTypeView)>, n: Seq<char>) -> bool {
    exists|k: int| 0 <= k < t.len() && t[k].0 == n
}

/// Every entry is the resolution of its name.
spec fn entries_valid(cat: CatalogView, t: Seq<(Seq<char>, ObjectTypeView)>) -> bool {
    forall|i: int| 0 <= i < t.len() ==> spec_type(cat, #[trigger] t[i].0) == Some(t[i].1)
}

fn push_entry(Ghost(cat): Ghost<CatalogView>, types: &mut Vec<(String, ObjectType)>, name: &str, t: ObjectType)
    requires
        entries_valid(cat, table_view(old(types)@)),
        spec_type(cat, name@) == Some(t@),
    ensures
        table_view(final(types)@) == table_view(old(types)@).push((name@, t@)),
        entries_valid(cat, table_view(final(types)@)),
{
    let ghost before = table_view(types@);
    types.push((name.to_owned(), t));
    assert(table_view(types@) =~= before.push((name@, t@)));
}

fn push_builtin(Ghost(cat): Ghost<CatalogView>, types: &mut Vec<(String, ObjectType)>, name: &str)
    requires
        entries_valid(cat, table_view(old(types)@)),
        builtin_reader(name@) is Some,
    ensures
        table_view(final(types)@) == table_view(old(types)@).push(
            (name@, ObjectTypeView::Primitive(builtin_reader(name@)->Some_0)),
        ),
        entries_valid(cat, table_view(final(types)@)),
{
    match builtin_reader_of(name) {
        Some(r) => push_entry(Ghost(cat), types, name, ObjectType::Primitive(r)),
        None => {},
    }
}

fn table_has(types: &Vec<(String, ObjectType)>, name: &str) -> (r: bool)
    ensures
        r == has_entry(table_view(types@), name@),
{
    let mut i: usize = 0;
    while i < types.len()
        invariant
            i <= types@.len(),
            forall|k: int| 0 <= k < i ==> table_view(types@)[k].0 != name@,
        decreases types@.len() - i,
    {
        if same_text(types[i].0.as_str(), name) {
            assert(table_view(types@)[i as int].0 == name@);
            return true;
        }
        i += 1;
    }
    false
}

/// Resolves every class of a catalog into the type graph: each field of a
/// class whose type is another class is replaced by that class's fields.
/// Fails, naming a class that cannot be resolved, exactly when some class
/// inlines itself.
pub fn resolve_obj_params(catalog: &Catalog) -> (r: Result<ObjParams, ObjParamsError>)
    ensures
        r is Ok <==> forall|i: int| 0 <= i < catalog@.len() ==> spec_type(catalog@, #[trigger] catalog@[i].0) is Some,
        r is Err <==> has_inline_cycle(catalog@),
        r matches Ok(p) ==> p.spec_catalog() == catalog@ && table_complete(catalog@, p.table()),
        r matches Err(ObjParamsError::InlineCycle(n)) ==> spec_type(catalog@, n@) is None && exists|i: int|
            0 <= i < catalog@.len() && catalog@[i].0 == n@,
{
    let ghost cat = catalog@;
    let n = catalog.len();
    let mut memo: Memo = Vec::new();
    let mut types: Vec<(String, ObjectType)> = Vec::new();
    proof {
        reveal_strlit("u8");
        reveal_strlit("u16");
        reveal_strlit("u32");
        reveal_strlit("s8");
        reveal_strlit("s16");
        reveal_strlit("s32");
        reveal_strlit("float");
        reveal_strlit("string");
        reveal_strlit("void*");
    }
    assert("u8"@ =~= seq!['u', '8']);
    assert("u16"@ =~= seq!['u', '1', '6']);
    assert("u32"@ =~= seq!['u', '3', '2']);
    assert("s8"@ =~= seq!['s', '8']);
    assert("s16"@ =~= seq!['s', '1', '6']);
    assert("s32"@ =~= seq!['s', '3', '2']);
    assert("float"@ =~= seq!['f', 'l', 'o', 'a', 't']);
    assert("string"@ =~= seq!['s', 't', 'r', 'i', 'n', 'g']);
    assert("void*"@ =~= seq!['v', 'o', 'i', 'd', '*']);
    assert(table_view(types@) =~= Seq::<(Seq<char>, ObjectTypeView)>::empty());
    push_builtin(Ghost(cat), &mut types, "u8");
    push_builtin(Ghost(cat), &mut types, "u16");
    push_builtin(Ghost(cat), &mut types, "u32");
    push_builtin(Ghost(cat), &mut types, "s8");
    push_builtin(Ghost(cat), &mut types, "s16");
    push_builtin(Ghost(cat), &mut types, "s32");
    push_builtin(Ghost(cat), &mut types, "float");
    push_builtin(Ghost(cat), &mut types, "string");
    push_builtin(Ghost(cat), &mut types, "void*");
    assert forall|m: Seq<char>| builtin_reader(m) is Some implies has_entry(table_view(types@), m) by {
        let t = table_view(types@);
        if m == seq!['u', '8'] {
            assert(t[0].0 == m);
        } else if m == seq!['u', '1', '6'] {
            assert(t[1].0 == m);
        } else if m == seq!['u', '3', '2'] {
            assert(t[2].0 == m);
        } else if m == seq!['s', '8'] {
            assert(t[3].0 == m);
        } else if m == seq!['s', '1', '6'] {
            assert(t[4].0 == m);
        } else if m == seq!['s', '3', '2'] {
            assert(t[5].0 == m);
        } else if m == seq!['f', 'l', 'o', 'a', 't'] {
            assert(t[6].0 == m);
        } else if m == seq!['s', 't', 'r', 'i', 'n', 'g'] {
            assert(t[7].0 == m);
        } else {
            assert(t[8].0 == m);
        }
    }
    assert forall|k: int| 0 <= k < table_view(types@).len() implies graph_key(cat, #[trigger] table_view(types@)[k].0) by {
        assert(builtin_reader(table_view(types@)[k].0) is Some);
    }
    let mut i: usize = 0;
    while i < n
        invariant
            n == cat.len(),
            cat == catalog@,
            i <= n,
            memo_valid(cat, memo@),
            entries_valid(cat, table_view(types@)),
            forall|m: Seq<char>| builtin_reader(m) is Some ==> #[trigger] has_entry(table_view(types@), m),
            forall|k: int| 0 <= k < i && !is_pointer_name(cat[k].0) ==> #[trigger] has_entry(table_view(types@), cat[k].0),
            forall|k: int| 0 <= k < i ==> spec_type(cat, #[trigger] cat[k].0) is Some,
            forall|k: int| 0 <= k < table_view(types@).len() ==> graph_key(cat, #[trigger] table_view(types@)[k].0),
        decreases n - i,
    {
        let name = catalog.classes[i].name.as_str();
        assert(name@ == cat[i as int].0);
        let ghost before = table_view(types@);
        if builtin_reader_of(name).is_some() {
            assert(has_entry(table_view(types@), name@));
        } else if ends_with_char(name, '*') {
        } else {
            match resolve_type(catalog, &mut memo, name, n) {
                Some(t) => {
                    proof {
                        lemma_decls_of_at(cat, i as int);
                    }
                    push_entry(Ghost(cat), &mut types, name, t);
                    assert(table_view(types@)[before.len() as int].0 == name@);
                    assert(is_class_name(cat, name@));
                },
                None => {
                    proof {
                        assert(spec_type(cat, cat[i as int].0) is None);
                        lemma_failure_is_cycle(cat);
                    }
                    return Err(ObjParamsError::InlineCycle(name.to_owned()));
                },
            }
        }
        assert forall|m: Seq<char>| has_entry(before, m) implies #[trigger] has_entry(table_view(types@), m) by {
            let k = choose|k: int| 0 <= k < before.len() && before[k].0 == m;
            assert(table_view(types@)[k].0 == m);
        }
        i += 1;
    }
    let mut i: usize = 0;
    while i < n
        invariant
            n == cat.len(),
            cat == catalog@,
            i <= n,
            entries_valid(cat, table_view(types@)),
            forall|m: Seq<char>| builtin_reader(m) is Some ==> #[trigger] has_entry(table_view(types@), m),
            forall|k: int| 0 <= k < n && !is_pointer_name(cat[k].0) ==> #[trigger] has_entry(table_view(types@), cat[k].0),
            forall|k: int| 0 <= k < n ==> spec_type(cat, #[trigger] cat[k].0) is Some,
            forall|k: int| 0 <= k < table_view(types@).len() ==> graph_key(cat, #[trigger] table_view(types@)[k].0),
            forall|c: int, k: int|
                0 <= c < i && is_class_name(cat, cat[c].0) && 0 <= k < decls_of(cat, cat[c].0)->Some_0.len()
                    && resolves_its_type(#[trigger] decls_of(cat, cat[c].0)->Some_0[k]) && is_unknown_name(
                    cat,
                    decls_of(cat, cat[c].0)->Some_0[k].type_,
                ) ==> has_entry(table_view(types@), decls_of(cat, cat[c].0)->Some_0[k].type_),
        decreases n - i,
    {
        let name = catalog.classes[i].name.as_str();
        assert(name@ == cat[i as int].0);
        if builtin_reader_of(name).is_none() && !ends_with_char(name, '*') {
            match catalog.get(name) {
                Some(decls) => {
                    let ghost dv = decls_view(decls@);
                    let mut k: usize = 0;
                    while k < decls.len()
                        invariant
                            n == cat.len(),
                            cat == catalog@,
                            i < n,
                            k <= decls@.len(),
                            name@ == cat[i as int].0,
                            is_class_name(cat, name@),
                            decls_of(cat, name@) == Some(dv),
                            dv == decls_view(decls@),
                            entries_valid(cat, table_view(types@)),
                            forall|m: Seq<char>| builtin_reader(m) is Some ==> #[trigger] has_entry(table_view(types@), m),
                            forall|kk: int| 0 <= kk < n && !is_pointer_name(cat[kk].0) ==> #[trigger] has_entry(table_view(types@), cat[kk].0),
                            forall|kk: int| 0 <= kk < n ==> spec_type(cat, #[trigger] cat[kk].0) is Some,
                            forall|kk: int| 0 <= kk < table_view(types@).len() ==> graph_key(cat, #[trigger] table_view(types@)[kk].0),
                            forall|c: int, kk: int|
                                0 <= c < i && is_class_name(cat, cat[c].0) && 0 <= kk < decls_of(cat, cat[c].0)->Some_0.len()
                                    && resolves_its_type(#[trigger] decls_of(cat, cat[c].0)->Some_0[kk]) && is_unknown_name(
                                    cat,
                                    decls_of(cat, cat[c].0)->Some_0[kk].type_,
                                ) ==> has_entry(table_view(types@), decls_of(cat, cat[c].0)->Some_0[kk].type_),
                            forall|kk: int|
                                0 <= kk < k && resolves_its_type(#[trigger] dv[kk]) && is_unknown_name(cat, dv[kk].type_)
                                    ==> has_entry(table_view(types@), dv[kk].type_),
                        decreases decls@.len() - k,
                    {
                        let d = &decls[k];
                        assert(d@ == dv[k as int]);
                        let ghost before = table_view(types@);
                        let hidden = match d.hidden {
                            Some(h) => h,
                            None => false,
                        };
                        let special = match d.format {
                            Some(f) => formatted_reader_of(d.type_.as_str(), f).is_some(),
                            None => false,
                        };
                        let t = d.type_.as_str();
                        if !hidden && !special && builtin_reader_of(t).is_none() && !ends_with_char(t, '*')
                            && catalog.get(t).is_none() && !table_has(&types, t) {
                            assert(referenced_unknown(cat, t@)) by {
                                assert(decls_of(cat, name@)->Some_0[k as int].type_ == t@);
                            }
                            proof {
                                lemma_unknown_name_reads_address(cat, t@);
                            }
                            push_entry(Ghost(cat), &mut types, t, ObjectType::Primitive(ClassFieldReader::Address));
                            assert(table_view(types@)[before.len() as int].0 == t@);
                        }
                        assert forall|m: Seq<char>| has_entry(before, m) implies #[trigger] has_entry(table_view(types@), m) by {
                            let j = choose|j: int| 0 <= j < before.len() && before[j].0 == m;
                            assert(table_view(types@)[j].0 == m);
                        }
                        k += 1;
                    }
                },
                None => {
                    proof {
                        lemma_decls_of_at(cat, i as int);
                    }
                },
            }
        }
        i += 1;
    }
    assert forall|m: Seq<char>| referenced_unknown(cat, m) implies #[trigger] has_entry(table_view(types@), m) by {
        let (c, k) = choose|c: Seq<char>, k: int|
            is_class_name(cat, c) && 0 <= k < decls_of(cat, c)->Some_0.len() && (#[trigger] decls_of(cat, c)->Some_0[k]).type_ == m
                && resolves_its_type(decls_of(cat, c)->Some_0[k]);
        let ci = lemma_decls_of_index(cat, c);
        assert(decls_of(cat, cat[ci].0)->Some_0[k].type_ == m);
    }
    let ghost t = table_view(types@);
    assert forall|m: Seq<char>| has_entry(t, m) implies table_lookup(t, m) is Some by {
        let k = choose|k: int| 0 <= k < t.len() && t[k].0 == m;
        lemma_lookup_index(t, k);
    }
    assert forall|m: Seq<char>| builtin_reader(m) is Some implies #[trigger] table_lookup(t, m) is Some by {
        assert(has_entry(t, m));
    }
    assert forall|k: int| 0 <= k < cat.len() && !is_pointer_name(cat[k].0) implies table_lookup(t, #[trigger] cat[k].0) is Some by {
        assert(has_entry(t, cat[k].0));
    }
    assert forall|m: Seq<char>| referenced_unknown(cat, m) implies #[trigger] table_lookup(t, m) is Some by {
        assert(has_entry(t, m));
    }
    assert(table_complete(cat, t));
    proof {
        lemma_failure_is_cycle(cat);
    }
    let p = ObjParams { types, catalog: Ghost(cat) };
    Ok(p)
}

/// A name that the catalog does not declare, that is not built in and not a
/// pointer name, resolves to the reader that shows a raw address, at any
/// depth and so on every lookup.
pub proof fn lemma_unknown_name_reads_address(cat: CatalogView, n: Seq<char>)
    requires
        builtin_reader(n) is None,
        !is_pointer_name(n),
        decls_of(cat, n) is None,
    ensures
        forall|fuel: nat| spec_resolve(cat, n, fuel) == Some(ObjectTypeView::Primitive(ClassFieldReader::Address)),
        spec_type(cat, n) == Some(ObjectTypeView::Primitive(ClassFieldReader::Address)),
{
}

/// A field declaration that refers to no class: hidden, or of a built-in or
/// pointer type.
pub open spec fn refers_to_no_class(d: FieldDeclView) -> bool {
    d.hidden == Some(true) || builtin_reader(d.type_) is Some || is_pointer_name(d.type_)
}

proof fn lemma_flat_decls_resolve(cat: CatalogView, class: Seq<char>, decls: Seq<FieldDeclView>, fuel: nat)
    requires
        forall|i: int| 0 <= i < decls.len() ==> refers_to_no_class(#[trigger] decls[i]),
    ensures
        spec_flatten(cat, class, decls, fuel) is Some,
    decreases decls.len(),
{
    if decls.len() > 0 {
        assert forall|i: int| 0 <= i < decls.drop_last().len() implies refers_to_no_class(#[trigger] decls.drop_last()[i]) by {
            assert(decls.drop_last()[i] == decls[i]);
        }
        lemma_flat_decls_resolve(cat, class, decls.drop_last(), fuel);
        let d = decls.last();
        assert(refers_to_no_class(decls[decls.len() - 1]));
        if d.hidden != Some(true) && !(d.format is Some && formatted_reader(d.type_, d.format->Some_0) is Some) {
            assert(spec_resolve(cat, d.type_, fuel) is Some);
        }
        assert(spec_field_entries(cat, class, d, fuel) is Some);
    }
}

/// A class whose fields reach classes only through pointers resolves, even
/// when a pointer leads back to the class itself: a pointer name is resolved
/// without looking at what it points to.
pub proof fn lemma_pointer_fields_resolve(cat: CatalogView, n: Seq<char>)
    requires
        builtin_reader(n) is None,
        !is_pointer_name(n),
        decls_of(cat, n) is Some,
        forall|i: int| 0 <= i < decls_of(cat, n)->Some_0.len() ==> refers_to_no_class(#[trigger] decls_of(cat, n)->Some_0[i]),
    ensures
        spec_type(cat, n) is Some,
{
    let i = lemma_decls_of_index(cat, n);
    lemma_flat_decls_resolve(cat, n, decls_of(cat, n)->Some_0, (cat.len() - 1) as nat);
}

/// Inlining: when `outer` declares one field `f` of class type `inner`, and
/// `inner` declares one field `g` of a built-in type, `outer` resolves to one
/// field: `g` reached through `f`'s chain, named through `f`'s name, and
/// owned by `inner`.
pub proof fn lemma_inline_one_level(
    cat: CatalogView,
    outer: Seq<char>,
    inner: Seq<char>,
    f: FieldDeclView,
    g: FieldDeclView,
)
    requires
        builtin_reader(outer) is None,
        !is_pointer_name(outer),
        builtin_reader(inner) is None,
        !is_pointer_name(inner),
        decls_of(cat, outer) == Some(seq![f]),
        decls_of(cat, inner) == Some(seq![g]),
        f.type_ == inner,
        f.hidden != Some(true),
        f.format is None,
        g.hidden != Some(true),
        g.format is None,
        builtin_reader(g.type_) is Some,
    ensures
        spec_type(cat, outer) == Some(
            ObjectTypeView::Class(
                seq![
                    ClassFieldView {
                        offset: compose_chain(f.offset, g.offset),
                        type_: g.type_,
                        name: inlined_name(f.name, g.name),
                        notes: g.notes,
                        class: inner,
                        reader: builtin_reader(g.type_)->Some_0,
                    },
                ],
            ),
        ),
{
    let io = lemma_decls_of_index(cat, outer);
    let ii = lemma_decls_of_index(cat, inner);
    assert(outer != inner) by {
        if outer == inner {
            assert(seq![f] == seq![g]);
            assert(seq![f][0] == seq![g][0]);
        }
    }
    assert(cat.len() >= 2) by {
        assert(io != ii);
    }
    let n = cat.len();
    let r = builtin_reader(g.type_)->Some_0;
    let own = own_field(g, inner, r);
    assert(seq![g].drop_last() =~= Seq::<FieldDeclView>::empty());
    assert(seq![f].drop_last() =~= Seq::<FieldDeclView>::empty());
    assert(spec_field_entries(cat, inner, g, (n - 2) as nat) == Some(seq![own]));
    assert(spec_flatten(cat, inner, seq![g], (n - 2) as nat) == Some(Seq::<ClassFieldView>::empty() + seq![own]));
    assert(Seq::<ClassFieldView>::empty() + seq![own] =~= seq![own]);
    assert(spec_resolve(cat, inner, (n - 1) as nat) == Some(ObjectTypeView::Class(seq![own])));
    let inl = seq![own].map_values(|s: ClassFieldView| inline_field(f, s));
    assert(inl =~= seq![inline_field(f, own)]);
    assert(spec_field_entries(cat, outer, f, (n - 1) as nat) == Some(inl));
    assert(Seq::<ClassFieldView>::empty() + inl =~= inl);
}

/// A class with a shown field of its own type, and no format override for
/// it, inlines itself: it resolves at no depth, so resolving its catalog fails.
pub proof fn lemma_self_inlining_fails(cat: CatalogView, n: Seq<char>, k: int, fuel: nat)
    requires
        builtin_reader(n) is None,
        !is_pointer_name(n),
        decls_of(cat, n) is Some,
        0 <= k < decls_of(cat, n)->Some_0.len(),
        decls_of(cat, n)->Some_0[k].type_ == n,
        decls_of(cat, n)->Some_0[k].hidden != Some(true),
        decls_of(cat, n)->Some_0[k].format is None,
    ensures
        spec_resolve(cat, n, fuel) is None,
    decreases fuel,
{
    if fuel > 0 {
        let decls = decls_of(cat, n)->Some_0;
        lemma_self_inlining_fails(cat, n, k, (fuel - 1) as nat);
        let pre = decls.subrange(0, k + 1);
        assert(pre.last() == decls[k]);
        assert(spec_field_entries(cat, n, decls[k], (fuel - 1) as nat) is None);
        assert(spec_flatten(cat, n, pre, (fuel - 1) as nat) is None);
        lemma_flatten_prefix_none(cat, n, decls, (k + 1) as nat, (fuel - 1) as nat);
    }
}

/// A name that resolves to a class of the catalog.
pub open spec fn is_class_name(cat: CatalogView, n: Seq<char>) -> bool {
    builtin_reader(n) is None && !is_pointer_name(n) && decls_of(cat, n) is Some
}

/// A declaration that inlines class `b`: shown, with no format override, and
/// of type `b`.
pub open spec fn field_inlines(cat: CatalogView, d: FieldDeclView, b: Seq<char>) -> bool {
    &&& d.type_ == b
    &&& d.hidden != Some(true)
    &&& !(d.format is Some && formatted_reader(d.type_, d.format->Some_0) is Some)
    &&& is_class_name(cat, b)
}

/// Class `a` inlines class `b` through one of its declarations.
pub open spec fn inlines(cat: CatalogView, a: Seq<char>, b: Seq<char>) -> bool {
    &&& is_class_name(cat, a)
    &&& exists|k: int| 0 <= k < decls_of(cat, a)->Some_0.len() && field_inlines(cat, #[trigger] decls_of(cat, a)->Some_0[k], b)
}

/// A chain of classes in which each inlines the next.
pub open spec fn inline_chain(cat: CatalogView, c: Seq<Seq<char>>) -> bool {
    &&& c.len() >= 1
    &&& is_class_name(cat, c[0])
    &&& forall|i: int| 0 <= i < c.len() - 1 ==> inlines(cat, #[trigger] c[i], c[i + 1])
}

/// Some class inlines itself, directly or through other classes.
pub open spec fn has_inline_cycle(cat: CatalogView) -> bool {
    exists|c: Seq<Seq<char>>| inline_chain(cat, c) && c.len() >= 2 && c[0] == c.last()
}

proof fn lemma_flatten_none_entry(cat: CatalogView, class: Seq<char>, decls: Seq<FieldDeclView>, fuel: nat) -> (k: int)
    requires
        spec_flatten(cat, class, decls, fuel) is None,
    ensures
        0 <= k < decls.len(),
        spec_field_entries(cat, class, decls[k], fuel) is None,
    decreases decls.len(),
{
    if spec_field_entries(cat, class, decls.last(), fuel) is None {
        (decls.len() - 1) as int
    } else {
        let j = lemma_flatten_none_entry(cat, class, decls.drop_last(), fuel);
        assert(decls.drop_last()[j] == decls[j]);
        j
    }
}

proof fn lemma_failure_chain(cat: CatalogView, n: Seq<char>, fuel: nat) -> (c: Seq<Seq<char>>)
    requires
        spec_resolve(cat, n, fuel) is None,
    ensures
        inline_chain(cat, c),
        c.len() == fuel + 1,
        c[0] == n,
    decreases fuel,
{
    if fuel == 0 {
        seq![n]
    } else {
        let decls = decls_of(cat, n)->Some_0;
        let k = lemma_flatten_none_entry(cat, n, decls, (fuel - 1) as nat);
        let d = decls[k];
        let b = d.type_;
        let rest = lemma_failure_chain(cat, b, (fuel - 1) as nat);
        assert(field_inlines(cat, d, b));
        assert(inlines(cat, n, b));
        let c = seq![n] + rest;
        assert forall|i: int| 0 <= i < c.len() - 1 implies inlines(cat, #[trigger] c[i], c[i + 1]) by {
            if i > 0 {
                assert(c[i] == rest[i - 1]);
                assert(c[i + 1] == rest[i]);
            }
        }
        c
    }
}

proof fn lemma_pigeonhole(s: Seq<int>, n: nat) -> (r: (int, int))
    requires
        s.len() > n,
        forall|i: int| 0 <= i < s.len() ==> 0 <= #[trigger] s[i] < n,
    ensures
        0 <= r.0 < r.1 < s.len(),
        s[r.0] == s[r.1],
    decreases n,
{
    let x = s.last();
    let last = s.len() - 1;
    if exists|i: int| 0 <= i < last && s[i] == x {
        let i = choose|i: int| 0 <= i < last && s[i] == x;
        (i, last)
    } else if x == n - 1 {
        let t = s.drop_last();
        let r = lemma_pigeonhole(t, (n - 1) as nat);
        assert(t[r.0] == s[r.0] && t[r.1] == s[r.1]);
        r
    } else {
        let t = s.drop_last().map_values(|v: int| if v == n - 1 { x } else { v });
        assert forall|i: int| 0 <= i < t.len() implies 0 <= #[trigger] t[i] < n - 1 by {
            assert(s[i] != x);
        }
        let r = lemma_pigeonhole(t, (n - 1) as nat);
        assert(s[r.0] != x && s[r.1] != x);
        r
    }
}

proof fn lemma_long_chain_cycles(cat: CatalogView, c: Seq<Seq<char>>)
    requires
        inline_chain(cat, c),
        c.len() > cat.len(),
    ensures
        has_inline_cycle(cat),
{
    assert forall|i: int| 0 <= i < c.len() implies is_class_name(cat, #[trigger] c[i]) by {
        if i > 0 {
            assert(inlines(cat, c[i - 1], c[i]));
            let k = choose|k: int| 0 <= k < decls_of(cat, c[i - 1])->Some_0.len() && field_inlines(cat, #[trigger] decls_of(cat, c[i - 1])->Some_0[k], c[i]);
        }
    }
    let idx = Seq::new(c.len(), |i: int| first_index(cat, c[i]));
    assert forall|i: int| 0 <= i < idx.len() implies 0 <= #[trigger] idx[i] < cat.len() by {
        lemma_first_index(cat, c[i]);
    }
    let r = lemma_pigeonhole(idx, cat.len());
    lemma_first_index(cat, c[r.0]);
    lemma_first_index(cat, c[r.1]);
    let cyc = c.subrange(r.0, r.1 + 1);
    assert forall|i: int| 0 <= i < cyc.len() - 1 implies inlines(cat, #[trigger] cyc[i], cyc[i + 1]) by {
        assert(cyc[i] == c[r.0 + i]);
        assert(cyc[i + 1] == c[r.0 + i + 1]);
    }
    assert(inline_chain(cat, cyc) && cyc.len() >= 2 && cyc[0] == cyc.last());
}

/// The position of the first declaration of `n` in the catalog.
spec fn first_index(cat: CatalogView, n: Seq<char>) -> int
    decreases cat.len(),
{
    if cat.len() == 0 {
        0
    } else if cat[0].0 == n {
        0
    } else {
        first_index(cat.drop_first(), n) + 1
    }
}

proof fn lemma_first_index(cat: CatalogView, n: Seq<char>)
    requires
        decls_of(cat, n) is Some,
    ensures
        0 <= first_index(cat, n) < cat.len(),
        cat[first_index(cat, n)].0 == n,
    decreases cat.len(),
{
    if cat[0].0 != n {
        lemma_first_index(cat.drop_first(), n);
    }
}

proof fn lemma_cycle_fails(cat: CatalogView, c: Seq<Seq<char>>, fuel: nat)
    requires
        inline_chain(cat, c),
        c.len() >= 2,
        c[0] == c.last(),
    ensures
        forall|i: int| 0 <= i < c.len() ==> spec_resolve(cat, #[trigger] c[i], fuel) is None,
    decreases fuel,
{
    assert forall|i: int| 0 <= i < c.len() implies is_class_name(cat, #[trigger] c[i]) by {
        if i > 0 {
            assert(inlines(cat, c[i - 1], c[i]));
        }
    }
    if fuel > 0 {
        lemma_cycle_fails(cat, c, (fuel - 1) as nat);
        assert forall|i: int| 0 <= i < c.len() implies spec_resolve(cat, #[trigger] c[i], fuel) is None by {
            let a = c[i];
            let j = if i < c.len() - 1 { i } else { 0 };
            assert(c[j] == a);
            assert(inlines(cat, c[j], c[j + 1]));
            let decls = decls_of(cat, a)->Some_0;
            let k = choose|k: int| 0 <= k < decls.len() && field_inlines(cat, #[trigger] decls[k], c[j + 1]);
            assert(spec_resolve(cat, c[j + 1], (fuel - 1) as nat) is None);
            let pre = decls.subrange(0, k + 1);
            assert(pre.last() == decls[k]);
            assert(spec_field_entries(cat, a, decls[k], (fuel - 1) as nat) is None);
            assert(spec_flatten(cat, a, pre, (fuel - 1) as nat) is None);
            lemma_flatten_prefix_none(cat, a, decls, (k + 1) as nat, (fuel - 1) as nat);
        }
    }
}

/// Resolving a catalog fails exactly when some class inlines itself,
/// directly or through other classes.
pub proof fn lemma_failure_is_cycle(cat: CatalogView)
    ensures
        (exists|i: int| 0 <= i < cat.len() && spec_type(cat, #[trigger] cat[i].0) is None) <==> has_inline_cycle(cat),
{
    if exists|i: int| 0 <= i < cat.len() && spec_type(cat, #[trigger] cat[i].0) is None {
        let i = choose|i: int| 0 <= i < cat.len() && spec_type(cat, #[trigger] cat[i].0) is None;
        let c = lemma_failure_chain(cat, cat[i].0, cat.len());
        lemma_long_chain_cycles(cat, c);
    }
    if has_inline_cycle(cat) {
        let c = choose|c: Seq<Seq<char>>| inline_chain(cat, c) && c.len() >= 2 && c[0] == c.last();
        lemma_cycle_fails(cat, c, cat.len());
        let i = lemma_decls_of_index(cat, c[0]);
        assert(spec_type(cat, cat[i].0) is None);
    }
}

proof fn lemma_flatten_prefix(cat: CatalogView, class: Seq<char>, decls: Seq<FieldDeclView>, m: nat, fuel: nat)
    requires
        spec_flatten(cat, class, decls, fuel) is Some,
        m <= decls.len(),
    ensures
        spec_flatten(cat, class, decls.subrange(0, m as int), fuel) matches Some(a) && a.len()
            <= spec_flatten(cat, class, decls, fuel)->Some_0.len() && spec_flatten(cat, class, decls, fuel)->Some_0.subrange(
            0,
            a.len() as int,
        ) == a,
    decreases decls.len(),
{
    let fs = spec_flatten(cat, class, decls, fuel)->Some_0;
    if m == decls.len() {
        assert(decls.subrange(0, m as int) =~= decls);
        assert(fs.subrange(0, fs.len() as int) =~= fs);
    } else {
        let dl = decls.drop_last();
        assert(dl.subrange(0, m as int) =~= decls.subrange(0, m as int));
        lemma_flatten_prefix(cat, class, dl, m, fuel);
        let b = spec_flatten(cat, class, dl, fuel)->Some_0;
        let a = spec_flatten(cat, class, dl.subrange(0, m as int), fuel)->Some_0;
        assert(fs.subrange(0, a.len() as int) =~= b.subrange(0, a.len() as int));
    }
}

/// Inlining in general: a shown declaration of `outer`, with no format
/// override, whose type is a class of the catalog contributes that class's
/// fields to `outer` as one consecutive block, in their order, each reached
/// through the declaration's chain, named through its name, and still owned
/// by the class that declared it.
pub proof fn lemma_inlining_block(cat: CatalogView, outer: Seq<char>, k: int)
    requires
        is_class_name(cat, outer),
        0 <= k < decls_of(cat, outer)->Some_0.len(),
        field_inlines(cat, decls_of(cat, outer)->Some_0[k], decls_of(cat, outer)->Some_0[k].type_),
        spec_type(cat, outer) is Some,
    ensures
        spec_type(cat, outer) == Some(ObjectTypeView::Class(class_fields(cat, outer))),
        spec_type(cat, decls_of(cat, outer)->Some_0[k].type_) == Some(
            ObjectTypeView::Class(class_fields(cat, decls_of(cat, outer)->Some_0[k].type_)),
        ),
        exists|j: int|
            0 <= j && j + class_fields(cat, decls_of(cat, outer)->Some_0[k].type_).len() <= class_fields(cat, outer).len()
                && #[trigger] class_fields(cat, outer).subrange(
                j,
                j + class_fields(cat, decls_of(cat, outer)->Some_0[k].type_).len(),
            ) == inline_all(decls_of(cat, outer)->Some_0[k], class_fields(cat, decls_of(cat, outer)->Some_0[k].type_)),
{
    let ds = decls_of(cat, outer)->Some_0;
    let d = ds[k];
    let n = cat.len();
    let fs = spec_flatten(cat, outer, ds, (n - 1) as nat)->Some_0;
    lemma_flatten_prefix(cat, outer, ds, (k + 1) as nat, (n - 1) as nat);
    let pre = ds.subrange(0, k + 1);
    assert(pre.drop_last() =~= ds.subrange(0, k));
    assert(pre.last() == d);
    let a = spec_flatten(cat, outer, ds.subrange(0, k), (n - 1) as nat)->Some_0;
    let e = spec_field_entries(cat, outer, d, (n - 1) as nat)->Some_0;
    let inner = spec_resolve(cat, d.type_, (n - 1) as nat);
    lemma_resolve_mono(cat, d.type_, (n - 1) as nat, n as nat);
    let subs = inner->Some_0->Class_0;
    assert(e == subs.map_values(|s: ClassFieldView| inline_field(d, s)));
    let ae = spec_flatten(cat, outer, pre, (n - 1) as nat)->Some_0;
    assert(ae == a + e);
    assert(fs.subrange(a.len() as int, (a.len() + e.len()) as int) =~= ae.subrange(a.len() as int, (a.len() + e.len()) as int));
    assert(ae.subrange(a.len() as int, (a.len() + e.len()) as int) =~= e);
    assert(spec_type(cat, outer) == Some(ObjectTypeView::Class(fs)));
    assert(spec_type(cat, d.type_) == Some(ObjectTypeView::Class(subs)));
    assert(e.len() == subs.len());
    let j = a.len() as int;
    assert(fs.subrange(j, j + subs.len()) == inline_all(d, subs));
    assert(ae.len() <= fs.len());
    assert(j + subs.len() <= fs.len());
    assert(class_fields(cat, outer) == fs);
    assert(class_fields(cat, d.type_) == subs);
}

/// The fields of a name that resolves to a class; empty otherwise.
pub open spec fn class_fields(cat: CatalogView, n: Seq<char>) -> Seq<ClassFieldView> {
    match spec_type(cat, n) {
        Some(ObjectTypeView::Class(fs)) => fs,
        _ => Seq::empty(),
    }
}

/// The fields of a class, each placed through the declaration `d`.
pub open spec fn inline_all(d: FieldDeclView, subs: Seq<ClassFieldView>) -> Seq<ClassFieldView> {
    subs.map_values(|s: ClassFieldView| inline_field(d, s))
}

/// The declarations that are not hidden, in order.
pub open spec fn visible_decls(decls: Seq<FieldDeclView>) -> Seq<FieldDeclView>
    decreases decls.len(),
{
    if decls.len() == 0 {
        decls
    } else if decls.last().hidden == Some(true) {
        visible_decls(decls.drop_last())
    } else {
        visible_decls(decls.drop_last()).push(decls.last())
    }
}

/// Hidden declarations contribute nothing, wherever they stand: a class
/// resolves exactly as it would with them left out.
pub proof fn lemma_hidden_fields_dropped(cat: CatalogView, class: Seq<char>, decls: Seq<FieldDeclView>, fuel: nat)
    ensures
        spec_flatten(cat, class, decls, fuel) == spec_flatten(cat, class, visible_decls(decls), fuel),
    decreases decls.len(),
{
    if decls.len() > 0 {
        lemma_hidden_fields_dropped(cat, class, decls.drop_last(), fuel);
        let v = visible_decls(decls.drop_last());
        if decls.last().hidden == Some(true) {
            assert(visible_decls(decls) == v);
            assert(spec_field_entries(cat, class, decls.last(), fuel) == Some(Seq::<ClassFieldView>::empty()));
            match spec_flatten(cat, class, decls.drop_last(), fuel) {
                Some(a) => {
                    assert(a + Seq::<ClassFieldView>::empty() =~= a);
                },
                None => {},
            }
        } else {
            let w = v.push(decls.last());
            assert(visible_decls(decls) == w);
            assert(w.drop_last() =~= v);
            assert(w.last() == decls.last());
        }
    }
}

/// The catalog with every hidden declaration left out.
pub open spec fn without_hidden(cat: CatalogView) -> CatalogView {
    cat.map_values(|e: (Seq<char>, Seq<FieldDeclView>)| (e.0, visible_decls(e.1)))
}

proof fn lemma_decls_without_hidden(cat: CatalogView, n: Seq<char>)
    ensures
        decls_of(without_hidden(cat), n) == match decls_of(cat, n) {
            Some(ds) => Some(visible_decls(ds)),
            None => None,
        },
    decreases cat.len(),
{
    if cat.len() > 0 {
        assert(without_hidden(cat).drop_first() =~= without_hidden(cat.drop_first()));
        lemma_decls_without_hidden(cat.drop_first(), n);
    }
}

proof fn lemma_flatten_same(cat1: CatalogView, cat2: CatalogView, class: Seq<char>, decls: Seq<FieldDeclView>, fuel: nat)
    requires
        forall|t: Seq<char>| #[trigger] spec_resolve(cat1, t, fuel) == spec_resolve(cat2, t, fuel),
    ensures
        spec_flatten(cat1, class, decls, fuel) == spec_flatten(cat2, class, decls, fuel),
    decreases decls.len(),
{
    if decls.len() > 0 {
        lemma_flatten_same(cat1, cat2, class, decls.drop_last(), fuel);
        assert(spec_resolve(cat1, decls.last().type_, fuel) == spec_resolve(cat2, decls.last().type_, fuel));
        assert(spec_field_entries(cat1, class, decls.last(), fuel) == spec_field_entries(cat2, class, decls.last(), fuel));
    }
}

proof fn lemma_resolve_without_hidden(cat: CatalogView, fuel: nat)
    ensures
        forall|n: Seq<char>| #[trigger] spec_resolve(cat, n, fuel) == spec_resolve(without_hidden(cat), n, fuel),
    decreases fuel,
{
    let c2 = without_hidden(cat);
    if fuel > 0 {
        lemma_resolve_without_hidden(cat, (fuel - 1) as nat);
    }
    assert forall|n: Seq<char>| #[trigger] spec_resolve(cat, n, fuel) == spec_resolve(c2, n, fuel) by {
        lemma_decls_without_hidden(cat, n);
        if fuel > 0 && builtin_reader(n) is None && !is_pointer_name(n) && decls_of(cat, n) is Some {
            let ds = decls_of(cat, n)->Some_0;
            lemma_hidden_fields_dropped(cat, n, ds, (fuel - 1) as nat);
            lemma_flatten_same(cat, c2, n, visible_decls(ds), (fuel - 1) as nat);
        }
    }
}

/// Some resolved declaration of `decls` has type `n`.
pub open spec fn refers_to(decls: Seq<FieldDeclView>, n: Seq<char>) -> bool {
    exists|k: int| 0 <= k < decls.len() && (#[trigger] decls[k]).type_ == n && resolves_its_type(decls[k])
}

proof fn lemma_visible_refers(decls: Seq<FieldDeclView>, n: Seq<char>)
    ensures
        refers_to(decls, n) == refers_to(visible_decls(decls), n),
    decreases decls.len(),
{
    if decls.len() > 0 {
        let dl = decls.drop_last();
        lemma_visible_refers(dl, n);
        let v = visible_decls(dl);
        if refers_to(decls, n) {
            let k = choose|k: int| 0 <= k < decls.len() && (#[trigger] decls[k]).type_ == n && resolves_its_type(decls[k]);
            if k < decls.len() - 1 {
                assert(dl[k] == decls[k]);
                assert(refers_to(dl, n));
                let j = choose|j: int| 0 <= j < v.len() && (#[trigger] v[j]).type_ == n && resolves_its_type(v[j]);
                if decls.last().hidden != Some(true) {
                    assert(visible_decls(decls)[j] == v[j]);
                }
            } else {
                assert(visible_decls(decls) == v.push(decls.last()));
                assert(visible_decls(decls)[v.len() as int] == decls.last());
            }
        }
        if refers_to(visible_decls(decls), n) {
            let w = visible_decls(decls);
            let j = choose|j: int| 0 <= j < w.len() && (#[trigger] w[j]).type_ == n && resolves_its_type(w[j]);
            if decls.last().hidden == Some(true) {
                assert(w == v);
                assert(refers_to(v, n));
            } else {
                assert(w == v.push(decls.last()));
                if j < v.len() {
                    assert(w[j] == v[j]);
                    assert(refers_to(v, n));
                    let k = choose|k: int| 0 <= k < dl.len() && (#[trigger] dl[k]).type_ == n && resolves_its_type(dl[k]);
                    assert(decls[k] == dl[k]);
                } else {
                    assert(decls[decls.len() - 1] == w[j]);
                }
            }
        }
    }
}

proof fn lemma_referenced_unknown_alt(cat: CatalogView, n: Seq<char>)
    ensures
        referenced_unknown(cat, n) == (is_unknown_name(cat, n) && exists|c: Seq<char>|
            is_class_name(cat, c) && #[trigger] refers_to(decls_of(cat, c)->Some_0, n)),
{
    if referenced_unknown(cat, n) {
        let (c, k) = choose|c: Seq<char>, k: int|
            is_class_name(cat, c) && 0 <= k < decls_of(cat, c)->Some_0.len() && (#[trigger] decls_of(cat, c)->Some_0[k]).type_ == n
                && resolves_its_type(decls_of(cat, c)->Some_0[k]);
        assert(refers_to(decls_of(cat, c)->Some_0, n));
    }
    if is_unknown_name(cat, n) && exists|c: Seq<char>| is_class_name(cat, c) && #[trigger] refers_to(decls_of(cat, c)->Some_0, n) {
        let c = choose|c: Seq<char>| is_class_name(cat, c) && #[trigger] refers_to(decls_of(cat, c)->Some_0, n);
        let ds = decls_of(cat, c)->Some_0;
        let k = choose|k: int| 0 <= k < ds.len() && (#[trigger] ds[k]).type_ == n && resolves_its_type(ds[k]);
        assert(decls_of(cat, c)->Some_0[k].type_ == n);
    }
}

/// Hidden declarations contribute nothing to a resolved graph: the catalog
/// with all of them left out, in any class and at any position, resolves
/// every name alike and gives the graph the same names.
pub proof fn lemma_hidden_declarations_ignored(cat: CatalogView)
    ensures
        forall|n: Seq<char>| #[trigger] spec_type(cat, n) == spec_type(without_hidden(cat), n),
        forall|n: Seq<char>| #[trigger] graph_key(cat, n) == graph_key(without_hidden(cat), n),
{
    let c2 = without_hidden(cat);
    assert(c2.len() == cat.len());
    lemma_resolve_without_hidden(cat, cat.len());
    assert forall|n: Seq<char>| #[trigger] spec_type(cat, n) == spec_type(c2, n) by {
        assert(spec_resolve(cat, n, cat.len()) == spec_resolve(c2, n, cat.len()));
    }
    assert forall|n: Seq<char>| #[trigger] graph_key(cat, n) == graph_key(c2, n) by {
        lemma_decls_without_hidden(cat, n);
        lemma_referenced_unknown_alt(cat, n);
        lemma_referenced_unknown_alt(c2, n);
        if referenced_unknown(cat, n) {
            let c = choose|c: Seq<char>| is_class_name(cat, c) && #[trigger] refers_to(decls_of(cat, c)->Some_0, n);
            lemma_decls_without_hidden(cat, c);
            lemma_visible_refers(decls_of(cat, c)->Some_0, n);
            assert(is_class_name(c2, c) && refers_to(decls_of(c2, c)->Some_0, n));
        }
        if referenced_unknown(c2, n) {
            let c = choose|c: Seq<char>| is_class_name(c2, c) && #[trigger] refers_to(decls_of(c2, c)->Some_0, n);
            lemma_decls_without_hidden(cat, c);
            lemma_visible_refers(decls_of(cat, c)->Some_0, n);
            assert(is_class_name(cat, c) && refers_to(decls_of(cat, c)->Some_0, n));
        }
    }
}

} // verus!
