use vstd::prelude::*;
use crate::addr::Addr;

verus! {

/// `256^n`.
pub open spec fn pow256(n: nat) -> nat
    decreases n,
{
    if n == 0 {
        1
    } else {
        256 * pow256((n - 1) as nat)
    }
}

/// The bytes read as an unsigned number, most significant byte first.
pub open spec fn be_nat(b: Seq<u8>) -> nat
    decreases b.len(),
{
    if b.len() == 0 {
        0
    } else {
        be_nat(b.drop_last()) * 256 + b.last() as nat
    }
}

/// An unsigned value of `2 * half` possible values read as two's complement.
pub open spec fn twos(n: nat, half: nat) -> int {
    if n >= half {
        n - 2 * half
    } else {
        n as int
    }
}

proof fn lemma_be_nat_bound(b: Seq<u8>)
    ensures
        be_nat(b) < pow256(b.len()),
    decreases b.len(),
{
    if b.len() > 0 {
        lemma_be_nat_bound(b.drop_last());
        let x = be_nat(b.drop_last());
        let p = pow256((b.len() - 1) as nat);
        let y = b.last() as nat;
        assert(x * 256 + y < p * 256) by (nonlinear_arith)
            requires
                x < p,
                y < 256,
        ;
    }
}

/// The number that `b` spells big-endian; at most sixteen bytes.
pub fn be_u128(b: &[u8]) -> (r: u128)
    requires
        b@.len() <= 16,
    ensures
        r == be_nat(b@),
{
    proof {
        reveal_with_fuel(pow256, 17);
    }
    let mut acc: u128 = 0;
    let mut i: usize = 0;
    while i < b.len()
        invariant
            i <= b@.len() <= 16,
            acc == be_nat(b@.subrange(0, i as int)),
            pow256(16) == 0x1_0000_0000_0000_0000_0000_0000_0000_0000,
        decreases b@.len() - i,
    {
        let ghost pre = b@.subrange(0, i as int);
        let ghost next = b@.subrange(0, i + 1);
        assert(next.drop_last() =~= pre);
        proof {
            lemma_be_nat_bound(next);
            lemma_pow256_mono(next.len(), 16);
        }
        acc = acc * 256 + b[i] as u128;
        i += 1;
    }
    assert(b@.subrange(0, b@.len() as int) =~= b@);
    acc
}

proof fn lemma_pow256_mono(a: nat, b: nat)
    requires
        a <= b,
    ensures
        pow256(a) <= pow256(b),
    decreases b,
{
    if a < b {
        lemma_pow256_mono(a, (b - 1) as nat);
    }
}

proof fn lemma_be_fits(b: Seq<u8>)
    ensures
        be_nat(b) < pow256(b.len()),
        b.len() == 1 ==> be_nat(b) < 0x100,
        b.len() == 2 ==> be_nat(b) < 0x1_0000,
        b.len() == 4 ==> be_nat(b) < 0x1_0000_0000,
        b.len() == 8 ==> be_nat(b) < 0x1_0000_0000_0000_0000,
        b.len() == 16 ==> be_nat(b) < 0x1_0000_0000_0000_0000_0000_0000_0000_0000,
{
    lemma_be_nat_bound(b);
    reveal_with_fuel(pow256, 17);
}

/// A fixed-size value stored big-endian in the target's memory.
pub trait DecodeBE: Sized {
    /// Bytes the value takes in memory.
    spec fn spec_size() -> nat;

    /// The value that the bytes `b` hold.
    spec fn spec_decode(b: Seq<u8>) -> Self;

    /// Bytes the value takes in memory.
    fn packed_size() -> (r: usize)
        ensures
            r == Self::spec_size(),
    ;

    /// Reads the value from exactly `packed_size()` bytes.
    fn decode_be(b: &[u8]) -> (r: Self)
        requires
            b@.len() == Self::spec_size(),
        ensures
            r == Self::spec_decode(b@),
    ;
}

impl DecodeBE for u8 {
    open spec fn spec_size() -> nat {
        1
    }

    open spec fn spec_decode(b: Seq<u8>) -> u8 {
        be_nat(b) as u8
    }

    fn packed_size() -> (r: usize) {
        1
    }

    fn decode_be(b: &[u8]) -> (r: u8) {
        proof {
            lemma_be_fits(b@);
        }
        be_u128(b) as u8
    }
}

impl DecodeBE for u16 {
    open spec fn spec_size() -> nat {
        2
    }

    open spec fn spec_decode(b: Seq<u8>) -> u16 {
        be_nat(b) as u16
    }

    fn packed_size() -> (r: usize) {
        2
    }

    fn decode_be(b: &[u8]) -> (r: u16) {
        proof {
            lemma_be_fits(b@);
        }
        be_u128(b) as u16
    }
}

impl DecodeBE for u32 {
    open spec fn spec_size() -> nat {
        4
    }

    open spec fn spec_decode(b: Seq<u8>) -> u32 {
        be_nat(b) as u32
    }

    fn packed_size() -> (r: usize) {
        4
    }

    fn decode_be(b: &[u8]) -> (r: u32) {
        proof {
            lemma_be_fits(b@);
        }
        be_u128(b) as u32
    }
}

impl DecodeBE for u64 {
    open spec fn spec_size() -> nat {
        8
    }

    open spec fn spec_decode(b: Seq<u8>) -> u64 {
        be_nat(b) as u64
    }

    fn packed_size() -> (r: usize) {
        8
    }

    fn decode_be(b: &[u8]) -> (r: u64) {
        proof {
            lemma_be_fits(b@);
        }
        be_u128(b) as u64
    }
}

impl DecodeBE for u128 {
    open spec fn spec_size() -> nat {
        16
    }

    open spec fn spec_decode(b: Seq<u8>) -> u128 {
        be_nat(b) as u128
    }

    fn packed_size() -> (r: usize) {
        16
    }

    fn decode_be(b: &[u8]) -> (r: u128) {
        proof {
            lemma_be_fits(b@);
        }
        be_u128(b) as u128
    }
}

impl DecodeBE for i8 {
    open spec fn spec_size() -> nat {
        1
    }

    open spec fn spec_decode(b: Seq<u8>) -> i8 {
        twos(be_nat(b), 0x80) as i8
    }

    fn packed_size() -> (r: usize) {
        1
    }

    fn decode_be(b: &[u8]) -> (r: i8) {
        proof {
            lemma_be_fits(b@);
        }
        let u = be_u128(b);
        if u >= 0x80 {
            (u as i128 - 2 * 0x80) as i8
        } else {
            u as i8
        }
    }
}

impl DecodeBE for i16 {
    open spec fn spec_size() -> nat {
        2
    }

    open spec fn spec_decode(b: Seq<u8>) -> i16 {
        twos(be_nat(b), 0x8000) as i16
    }

    fn packed_size() -> (r: usize) {
        2
    }

    fn decode_be(b: &[u8]) -> (r: i16) {
        proof {
            lemma_be_fits(b@);
        }
        let u = be_u128(b);
        if u >= 0x8000 {
            (u as i128 - 2 * 0x8000) as i16
        } else {
            u as i16
        }
    }
}

impl DecodeBE for i32 {
    open spec fn spec_size() -> nat {
        4
    }

    open spec fn spec_decode(b: Seq<u8>) -> i32 {
        twos(be_nat(b), 0x8000_0000) as i32
    }

    fn packed_size() -> (r: usize) {
        4
    }

    fn decode_be(b: &[u8]) -> (r: i32) {
        proof {
            lemma_be_fits(b@);
        }
        let u = be_u128(b);
        if u >= 0x8000_0000 {
            (u as i128 - 2 * 0x8000_0000) as i32
        } else {
            u as i32
        }
    }
}

impl DecodeBE for i64 {
    open spec fn spec_size() -> nat {
        8
    }

    open spec fn spec_decode(b: Seq<u8>) -> i64 {
        twos(be_nat(b), 0x8000_0000_0000_0000) as i64
    }

    fn packed_size() -> (r: usize) {
        8
    }

    fn decode_be(b: &[u8]) -> (r: i64) {
        proof {
            lemma_be_fits(b@);
        }
        let u = be_u128(b);
        if u >= 0x8000_0000_0000_0000 {
            (u as i128 - 2 * 0x8000_0000_0000_0000) as i64
        } else {
            u as i64
        }
    }
}

impl DecodeBE for i128 {
    open spec fn spec_size() -> nat {
        16
    }

    open spec fn spec_decode(b: Seq<u8>) -> i128 {
        twos(be_nat(b), 0x8000_0000_0000_0000_0000_0000_0000_0000) as i128
    }

    fn packed_size() -> (r: usize) {
        16
    }

    fn decode_be(b: &[u8]) -> (r: i128) {
        proof {
            lemma_be_fits(b@);
        }
        let u = be_u128(b);
        if u >= 0x8000_0000_0000_0000_0000_0000_0000_0000 {
            let m = (u128::MAX - u) as i128;
            -m - 1
        } else {
            u as i128
        }
    }
}

impl DecodeBE for Addr {
    open spec fn spec_size() -> nat {
        4
    }

    open spec fn spec_decode(b: Seq<u8>) -> Addr {
        Addr(be_nat(b) as u32)
    }

    fn packed_size() -> (r: usize) {
        4
    }

    fn decode_be(b: &[u8]) -> (r: Addr) {
        proof {
            lemma_be_fits(b@);
        }
        Addr(be_u128(b) as u32)
    }
}

impl<const N: usize> DecodeBE for [u8; N] {
    open spec fn spec_size() -> nat {
        N as nat
    }

    open spec fn spec_decode(b: Seq<u8>) -> [u8; N] {
        choose|a: [u8; N]| a@ == b
    }

    fn packed_size() -> (r: usize) {
        N
    }

    fn decode_be(b: &[u8]) -> (r: [u8; N]) {
        broadcast use vstd::array::group_array_axioms;
        let mut a = [0u8; N];
        let mut i: usize = 0;
        while i < N
            invariant
                a@.len() == N,
                b@.len() == N,
                i <= N,
                forall|j: int| 0 <= j < i ==> a@[j] == b@[j],
            decreases N - i,
        {
            a[i] = b[i];
            i += 1;
        }
        assert(a@ =~= b@);
        proof {
            let c = choose|c: [u8; N]| c@ == b@;
            assert(c =~= a);
        }
        a
    }
}

} // verus!
