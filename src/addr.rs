use vstd::prelude::*;
use crate::text::{hex_fixed, hex_text, parse_hex_spec, parse_hex_u32, push_char, push_hex, push_hex_fixed};

verus! {

/// Addresses wrap modulo 2^32.
pub open spec fn add32(a: u32, b: u32) -> u32 {
    ((a as nat + b as nat) % 0x1_0000_0000) as u32
}

/// A 32-bit logical address of the emulated machine.
#[derive(Clone, Copy, Debug, PartialEq, Eq, Structural, PartialOrd, Ord, Hash)]
pub struct Addr(pub u32);

impl From<u32> for Addr {
    fn from(x: u32) -> Addr {
        Addr(x)
    }
}

impl vstd::std_specs::convert::FromSpecImpl<u32> for Addr {
    open spec fn obeys_from_spec() -> bool {
        true
    }

    open spec fn from_spec(x: u32) -> Addr {
        Addr(x)
    }
}

impl From<Addr> for u32 {
    fn from(x: Addr) -> u32 {
        x.0
    }
}

impl vstd::std_specs::convert::FromSpecImpl<Addr> for u32 {
    open spec fn obeys_from_spec() -> bool {
        true
    }

    open spec fn from_spec(x: Addr) -> u32 {
        x.0
    }
}

impl Addr {
    /// The address `rhs` bytes further on, wrapping modulo 2^32.
    pub fn add(&self, rhs: u32) -> (r: Addr)
        ensures
            r.0 == add32(self.0, rhs),
    {
        Addr(self.0.wrapping_add(rhs))
    }

    /// The address moved by a signed displacement, wrapping modulo 2^32.
    pub fn offset(&self, by: i32) -> (r: Addr)
        ensures
            r.0 as int == (self.0 as int + by as int) % 0x1_0000_0000,
    {
        Addr(self.0.wrapping_add_signed(by))
    }

    /// The address `rhs` bytes before, wrapping modulo 2^32.
    pub fn sub(&self, rhs: u32) -> (r: Addr)
        ensures
            r.0 as int == (self.0 as int - rhs as int) % 0x1_0000_0000,
    {
        Addr(self.0.wrapping_sub(rhs))
    }

    /// The signed distance from `other` to `self`: the wrapped difference read
    /// as a two's-complement 32-bit value.
    pub fn diff(&self, other: Addr) -> (r: i32)
        ensures
            r as int == (if (self.0 as int - other.0 as int) >= 0x8000_0000 {
                self.0 as int - other.0 as int - 0x1_0000_0000
            } else if (self.0 as int - other.0 as int) < -0x8000_0000 {
                self.0 as int - other.0 as int + 0x1_0000_0000
            } else {
                self.0 as int - other.0 as int
            }),
    {
        let d = self.0.wrapping_sub(other.0);
        if d >= 0x8000_0000 {
            let m: i64 = d as i64 - 0x1_0000_0000;
            m as i32
        } else {
            d as i32
        }
    }

    /// The address as eight uppercase hexadecimal digits.
    pub fn to_string(&self) -> (r: String)
        ensures
            r@ == hex_fixed(self.0 as nat, 8),
    {
        let mut s = String::new();
        push_hex_fixed(&mut s, self.0 as u128, 8);
        s
    }
}

/// Reads the 4-byte pointer stored at an address, if the memory holds one.
pub type PointerMemory = spec_fn(u32) -> Option<u32>;

/// Where following `tail` from `at` leads: for each offset in order, read the
/// pointer at the current address and add the offset to it.
pub open spec fn follow(mem: PointerMemory, at: u32, tail: Seq<u32>) -> Option<u32>
    decreases tail.len(),
{
    if tail.len() == 0 {
        Some(at)
    } else {
        match mem(at) {
            Some(p) => follow(mem, add32(p, tail[0]), tail.drop_first()),
            None => None,
        }
    }
}

/// Where an offset chain `(base, tail)` leads from `origin`.
pub open spec fn chain_target(mem: PointerMemory, origin: u32, chain: (u32, Seq<u32>)) -> Option<u32> {
    follow(mem, add32(origin, chain.0), chain.1)
}

/// The chain that follows `a` and then `b`: `b`'s base joins `a`'s last hop,
/// or `a`'s base when `a` has no hop.
pub open spec fn compose_chain(a: (u32, Seq<u32>), b: (u32, Seq<u32>)) -> (u32, Seq<u32>) {
    if a.1.len() > 0 {
        (a.0, a.1.drop_last().push(add32(a.1.last(), b.0)) + b.1)
    } else {
        (add32(a.0, b.0), b.1)
    }
}

/// A dereference path: start at `origin + .0`, then for each entry of `.1`
/// read a pointer at the current address and add the entry to it.
#[derive(Debug)]
pub struct AddrOffsets(pub u32, pub Vec<u32>);

impl View for AddrOffsets {
    type V = (u32, Seq<u32>);

    open spec fn view(&self) -> (u32, Seq<u32>) {
        (self.0, self.1@)
    }
}

/// The text form: the base, then `,` and each hop, in uppercase hexadecimal.
pub open spec fn offsets_text(base: u32, tail: Seq<u32>) -> Seq<char>
    decreases tail.len(),
{
    if tail.len() == 0 {
        hex_text(base as nat)
    } else {
        offsets_text(base, tail.drop_last()) + seq![','] + hex_text(tail.last() as nat)
    }
}

impl Clone for AddrOffsets {
    fn clone(&self) -> (r: Self)
        ensures
            r@ == self@,
    {
        let mut tail: Vec<u32> = Vec::new();
        let mut i: usize = 0;
        while i < self.1.len()
            invariant
                i <= self.1@.len(),
                tail@ == self.1@.subrange(0, i as int),
            decreases self.1@.len() - i,
        {
            tail.push(self.1[i]);
            i += 1;
        }
        assert(tail@ =~= self.1@);
        AddrOffsets(self.0, tail)
    }
}

impl AddrOffsets {
    /// A chain with no dereference: just `origin + base`.
    pub fn new(base: u32) -> (r: AddrOffsets)
        ensures
            r@ == (base, Seq::<u32>::empty()),
    {
        AddrOffsets(base, Vec::new())
    }

    /// Follows `self` and then `other`.
    pub fn compose(&self, other: &AddrOffsets) -> (r: AddrOffsets)
        ensures
            r@ == compose_chain(self@, other@),
    {
        let n = self.1.len();
        let mut tail: Vec<u32> = Vec::new();
        if n == 0 {
            let mut j: usize = 0;
            while j < other.1.len()
                invariant
                    j <= other.1@.len(),
                    tail@ == other.1@.subrange(0, j as int),
                decreases other.1@.len() - j,
            {
                tail.push(other.1[j]);
                j += 1;
            }
            assert(tail@ =~= other.1@);
            return AddrOffsets(self.0.wrapping_add(other.0), tail);
        }
        let mut i: usize = 0;
        while i + 1 < n
            invariant
                n == self.1@.len(),
                n > 0,
                i < n,
                tail@ == self.1@.subrange(0, i as int),
            decreases n - i,
        {
            tail.push(self.1[i]);
            i += 1;
        }
        tail.push(self.1[n - 1].wrapping_add(other.0));
        let ghost head = tail@;
        assert(head =~= self.1@.drop_last().push(add32(self.1@.last(), other.0)));
        let mut j: usize = 0;
        while j < other.1.len()
            invariant
                j <= other.1@.len(),
                tail@ == head + other.1@.subrange(0, j as int),
            decreases other.1@.len() - j,
        {
            tail.push(other.1[j]);
            j += 1;
            assert(tail@ =~= head + other.1@.subrange(0, j as int));
        }
        assert(other.1@.subrange(0, other.1@.len() as int) =~= other.1@);
        AddrOffsets(self.0, tail)
    }

    /// A chain written as one hexadecimal number: no dereference.
    pub fn from_hex_str(s: &str) -> (r: Option<AddrOffsets>)
        ensures
            r matches Some(o) ==> parse_hex_spec(s@) == Some(o.0) && o.1@.len() == 0,
            r is None ==> parse_hex_spec(s@) is None,
    {
        match parse_hex_u32(s) {
            Some(v) => Some(AddrOffsets::new(v)),
            None => None,
        }
    }

    /// A chain written as a non-empty list of hexadecimal numbers: the base,
    /// then the hops. `None` for an empty list or a malformed number.
    pub fn from_hex_strs(v: &Vec<String>) -> (r: Option<AddrOffsets>)
        ensures
            r is Some <==> v@.len() > 0 && forall|i: int| 0 <= i < v@.len() ==> parse_hex_spec(#[trigger] v@[i]@) is Some,
            r matches Some(o) ==> o.0 == parse_hex_spec(v@[0]@)->Some_0 && o.1@.len() == v@.len() - 1
                && forall|i: int| 0 <= i < o.1@.len() ==> #[trigger] o.1@[i] == parse_hex_spec(v@[i + 1]@)->Some_0,
    {
        if v.len() == 0 {
            return None;
        }
        let base = match parse_hex_u32(v[0].as_str()) {
            Some(b) => b,
            None => {
                return None;
            },
        };
        let mut tail: Vec<u32> = Vec::new();
        let mut i: usize = 1;
        while i < v.len()
            invariant
                1 <= i <= v@.len(),
                parse_hex_spec(v@[0]@) == Some(base),
                tail@.len() == i - 1,
                forall|k: int| 1 <= k < i ==> parse_hex_spec(#[trigger] v@[k]@) is Some,
                forall|k: int| 0 <= k < tail@.len() ==> #[trigger] tail@[k] == parse_hex_spec(v@[k + 1]@)->Some_0,
            decreases v@.len() - i,
        {
            match parse_hex_u32(v[i].as_str()) {
                Some(x) => {
                    tail.push(x);
                },
                None => {
                    return None;
                },
            }
            i += 1;
        }
        Some(AddrOffsets(base, tail))
    }

    /// The text form, e.g. `"10,4,C"`.
    pub fn to_string(&self) -> (r: String)
        ensures
            r@ == offsets_text(self.0, self.1@),
    {
        let mut s = String::new();
        push_hex(&mut s, self.0 as u128);
        let mut i: usize = 0;
        while i < self.1.len()
            invariant
                i <= self.1@.len(),
                s@ == offsets_text(self.0, self.1@.subrange(0, i as int)),
            decreases self.1@.len() - i,
        {
            assert(self.1@.subrange(0, i + 1).drop_last() =~= self.1@.subrange(0, i as int));
            push_char(&mut s, ',');
            push_hex(&mut s, self.1[i] as u128);
            i += 1;
        }
        assert(self.1@.subrange(0, self.1@.len() as int) =~= self.1@);
        s
    }
}

proof fn lemma_add32_assoc(a: u32, b: u32, c: u32)
    ensures
        add32(add32(a, b), c) == add32(a, add32(b, c)),
{
}

/// Composition of offset chains is associative.
pub proof fn lemma_compose_assoc(a: (u32, Seq<u32>), b: (u32, Seq<u32>), c: (u32, Seq<u32>))
    ensures
        compose_chain(compose_chain(a, b), c) == compose_chain(a, compose_chain(b, c)),
        forall|mem: PointerMemory, origin: u32|
            chain_target(mem, origin, compose_chain(compose_chain(a, b), c))
                == chain_target(mem, origin, compose_chain(a, compose_chain(b, c))),
{
    lemma_add32_assoc(a.0, b.0, c.0);
    if a.1.len() > 0 {
        lemma_add32_assoc(a.1.last(), b.0, c.0);
        if b.1.len() > 0 {
            let ab = compose_chain(a, b);
            assert(ab.1.drop_last() =~= a.1.drop_last().push(add32(a.1.last(), b.0)) + b.1.drop_last());
            assert(ab.1.last() == b.1.last());
        } else {
            let ab = compose_chain(a, b);
            assert(ab.1.drop_last() =~= a.1.drop_last());
        }
        assert(compose_chain(compose_chain(a, b), c).1 =~= compose_chain(a, compose_chain(b, c)).1);
    } else {
        if b.1.len() > 0 {
            assert(compose_chain(compose_chain(a, b), c).1 =~= compose_chain(a, compose_chain(b, c)).1);
        } else {
            assert(compose_chain(compose_chain(a, b), c).1 =~= compose_chain(a, compose_chain(b, c)).1);
        }
    }
}

proof fn lemma_follow_append(mem: PointerMemory, at: u32, s: Seq<u32>, off: u32, rest: Seq<u32>)
    requires
        s.len() > 0,
    ensures
        follow(mem, at, s.drop_last().push(add32(s.last(), off)) + rest) == (match follow(mem, at, s) {
            Some(x) => follow(mem, add32(x, off), rest),
            None => None,
        }),
    decreases s.len(),
{
    let t = s.drop_last().push(add32(s.last(), off)) + rest;
    match mem(at) {
        Some(p) => {
            if s.len() == 1 {
                assert(t.drop_first() =~= rest);
                assert(t[0] == add32(s[0], off));
                assert(s.drop_first() =~= Seq::<u32>::empty());
                assert(follow(mem, add32(p, s[0]), s.drop_first()) == Some(add32(p, s[0])));
                lemma_add32_assoc(p, s[0], off);
            } else {
                let s2 = s.drop_first();
                assert(t.drop_first() =~= s2.drop_last().push(add32(s2.last(), off)) + rest);
                assert(t[0] == s[0]);
                lemma_follow_append(mem, add32(p, s[0]), s2, off, rest);
            }
        },
        None => {},
    }
}

/// Following a composed chain is following the first chain, then the second
/// from where the first ends.
pub proof fn lemma_compose_follows(a: (u32, Seq<u32>), b: (u32, Seq<u32>), mem: PointerMemory, origin: u32)
    ensures
        chain_target(mem, origin, compose_chain(a, b)) == (match chain_target(mem, origin, a) {
            Some(x) => chain_target(mem, x, b),
            None => None,
        }),
{
    if a.1.len() > 0 {
        lemma_follow_append(mem, add32(origin, a.0), a.1, b.0, b.1);
    } else {
        lemma_add32_assoc(origin, a.0, b.0);
    }
}

} // verus!
