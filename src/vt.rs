use vstd::prelude::*;
use crate::addr::Addr;
use crate::text::{hex_fixed, parse_hex_spec, parse_hex_u32, push_char, push_hex_fixed};

verus! {

/// The class name that the first entry for `a` gives, if any.
pub open spec fn class_of(entries: Seq<(u32, Seq<char>)>, a: u32) -> Option<Seq<char>>
    decreases entries.len(),
{
    if entries.len() == 0 {
        None
    } else if entries[0].0 == a {
        Some(entries[0].1)
    } else {
        class_of(entries.drop_first(), a)
    }
}

/// How a class name is shown: the name itself, or the address in parentheses.
pub open spec fn class_text(entries: Seq<(u32, Seq<char>)>, a: u32) -> Seq<char> {
    match class_of(entries, a) {
        Some(name) => name,
        None => seq!['('] + hex_fixed(a as nat, 8) + seq![')'],
    }
}

/// A table from type-descriptor addresses to class names, for one build of
/// the game.
pub struct ClassTable {
    entries: Vec<(u32, String)>,
}

impl View for ClassTable {
    type V = Seq<(u32, Seq<char>)>;

    closed spec fn view(&self) -> Seq<(u32, Seq<char>)> {
        self.entries@.map_values(|e: (u32, String)| (e.0, e.1@))
    }
}

impl ClassTable {
    /// The empty table.
    pub fn new() -> (r: ClassTable)
        ensures
            r@ == Seq::<(u32, Seq<char>)>::empty(),
    {
        let r = ClassTable { entries: Vec::new() };
        assert(r@ =~= Seq::<(u32, Seq<char>)>::empty());
        r
    }

    /// Adds an entry; an earlier entry for the same address keeps precedence.
    pub fn push(&mut self, addr: u32, name: String)
        ensures
            final(self)@ == old(self)@.push((addr, name@)),
    {
        self.entries.push((addr, name));
        assert(final(self)@ =~= old(self)@.push((addr, name@)));
    }

    /// Builds a table from `(hexadecimal address, class name)` pairs; `None`
    /// when an address is not valid hexadecimal.
    pub fn from_hex_entries(entries: Vec<(String, String)>) -> (r: Option<ClassTable>)
        ensures
            r is Some <==> forall|i: int| 0 <= i < entries@.len() ==> parse_hex_spec(entries@[i].0@) is Some,
            r matches Some(t) ==> t@ == entries@.map_values(|e: (String, String)| (parse_hex_spec(e.0@)->Some_0, e.1@)),
    {
        let mut t = ClassTable::new();
        let mut i: usize = 0;
        while i < entries.len()
            invariant
                i <= entries@.len(),
                forall|k: int| 0 <= k < i ==> parse_hex_spec(entries@[k].0@) is Some,
                t@ == entries@.subrange(0, i as int).map_values(|e: (String, String)| (parse_hex_spec(e.0@)->Some_0, e.1@)),
            decreases entries@.len() - i,
        {
            match parse_hex_u32(entries[i].0.as_str()) {
                Some(a) => {
                    t.push(a, entries[i].1.clone());
                    assert(entries@.subrange(0, i + 1).map_values(|e: (String, String)| (parse_hex_spec(e.0@)->Some_0, e.1@))
                        =~= entries@.subrange(0, i as int).map_values(|e: (String, String)| (parse_hex_spec(e.0@)->Some_0, e.1@)).push((a, entries@[i as int].1@)));
                },
                None => {
                    return None;
                },
            }
            i += 1;
        }
        assert(entries@.subrange(0, entries@.len() as int) =~= entries@);
        Some(t)
    }
}

/// The class name registered for a type-descriptor address.
pub fn get_class(table: &ClassTable, addr: Addr) -> (r: Option<&str>)
    ensures
        r matches Some(s) ==> class_of(table@, addr.0) == Some(s@),
        r is None ==> class_of(table@, addr.0) is None,
{
    let n = table.entries.len();
    let mut i: usize = 0;
    assert(table@.subrange(0, n as int) =~= table@);
    while i < n
        invariant
            n == table.entries@.len(),
            i <= n,
            class_of(table@, addr.0) == class_of(table@.subrange(i as int, n as int), addr.0),
        decreases n - i,
    {
        let ghost rest = table@.subrange(i as int, n as int);
        assert(rest.drop_first() =~= table@.subrange(i + 1, n as int));
        if table.entries[i].0 == addr.0 {
            return Some(table.entries[i].1.as_str());
        }
        i += 1;
    }
    None
}

/// The class name for a type-descriptor address, or the address itself in
/// parentheses when the table does not know it.
pub fn get_class_string(table: &ClassTable, addr: Addr) -> (r: String)
    ensures
        r@ == class_text(table@, addr.0),
{
    match get_class(table, addr) {
        Some(s) => s.to_owned(),
        None => {
            let mut r = String::new();
            push_char(&mut r, '(');
            push_hex_fixed(&mut r, addr.0 as u128, 8);
            push_char(&mut r, ')');
            assert(r@ =~= seq!['('] + hex_fixed(addr.0 as nat, 8) + seq![')']);
            r
        },
    }
}

} // verus!
