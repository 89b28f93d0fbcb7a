use vstd::prelude::*;
use crate::addr::{add32, Addr, AddrOffsets};
use crate::big_endian::DecodeBE;
use crate::encoding::{c_prefix, decode_c_string, shift_jis_decode, text_of};
use crate::mem_addr::{fits, spec_translate, DolphinMemAddr};
use crate::text::{bytes_to_hex, hex_bytes};

verus! {

/// Longest string, in bytes, that a string read scans for its terminator.
pub const MAX_STRING_LENGTH: usize = 256;

/// The smaller of two sizes.
pub open spec fn min_size(a: int, b: int) -> int {
    if a <= b {
        a
    } else {
        b
    }
}

/// Raw access to the emulated memory, and the checked operations built on it.
///
/// An implementation supplies the two unchecked primitives; callers use the
/// checked operations, which translate the address and establish the bounds
/// first.
pub trait Dolphin: Sized {
    /// Whether an in-bounds raw read at `maddr` is sure to succeed; no
    /// backend promises it unless it says so.
    open spec fn serves(&self, maddr: DolphinMemAddr) -> bool {
        false
    }

    /// Copies `size` bytes from `maddr`; `size` must fit in the region.
    fn read_memory_unchecked(&self, maddr: DolphinMemAddr, size: usize) -> (r: Option<Vec<u8>>)
        requires
            maddr.wf(),
            size <= maddr.spec_space(),
        ensures
            r matches Some(b) ==> b@.len() == size,
            self.serves(maddr) ==> r is Some,
    ;

    /// Whether `self` is `before` with `payload` written at `maddr`; a backend
    /// that does not say promises nothing of the state after a write.
    open spec fn wrote(&self, before: &Self, maddr: DolphinMemAddr, payload: Seq<u8>) -> bool {
        true
    }

    /// Copies `payload` to `maddr`; the payload must fit in the region.
    fn write_memory_unchecked(&mut self, maddr: DolphinMemAddr, payload: &[u8]) -> (r: Option<()>)
        requires
            maddr.wf(),
            payload@.len() <= maddr.spec_space(),
        ensures
            final(self).serves(maddr) == old(self).serves(maddr),
            old(self).serves(maddr) ==> r is Some,
            r is Some ==> final(self).wrote(old(self), maddr, payload@),
    ;

    /// Reads `size` bytes at `addr`; `None` when they do not fit in one region.
    fn read_memory(&self, addr: Addr, size: usize) -> (r: Option<Vec<u8>>)
        ensures
            r matches Some(b) ==> fits(addr.0, size as int) && b@.len() == size,
            !fits(addr.0, size as int) ==> r is None,
            fits(addr.0, size as int) && self.serves(spec_translate(addr.0)->Some_0) ==> r is Some,
    {
        match DolphinMemAddr::translate(addr) {
            Ok(maddr) => {
                if (maddr.space() as usize) < size {
                    None
                } else {
                    self.read_memory_unchecked(maddr, size)
                }
            },
            Err(_) => None,
        }
    }

    /// Reads up to `max_size` bytes at `addr`, stopping at the end of its region.
    fn read_memory_truncated(&self, addr: Addr, max_size: usize) -> (r: Option<Vec<u8>>)
        ensures
            r matches Some(b) ==> spec_translate(addr.0) is Some && b@.len() == min_size(
                max_size as int,
                spec_translate(addr.0)->Some_0.spec_space(),
            ),
            spec_translate(addr.0) is None ==> r is None,
            spec_translate(addr.0) matches Some(m) && self.serves(m) ==> r is Some,
    {
        match DolphinMemAddr::translate(addr) {
            Ok(maddr) => {
                let space = maddr.space() as usize;
                let size = if space < max_size {
                    space
                } else {
                    max_size
                };
                self.read_memory_unchecked(maddr, size)
            },
            Err(_) => None,
        }
    }

    /// Writes `payload` at `addr`; `None` when it does not fit in one region.
    fn write_bytes(&mut self, addr: Addr, payload: &[u8]) -> (r: Option<()>)
        ensures
            r is Some ==> fits(addr.0, payload@.len() as int),
            !fits(addr.0, payload@.len() as int) ==> r is None,
            fits(addr.0, payload@.len() as int) && old(self).serves(spec_translate(addr.0)->Some_0)
                ==> r is Some,
            r is Some ==> final(self).wrote(old(self), spec_translate(addr.0)->Some_0, payload@),
            !fits(addr.0, payload@.len() as int) ==> *final(self) == *old(self),
    {
        match DolphinMemAddr::translate(addr) {
            Ok(maddr) => {
                if (maddr.space() as usize) < payload.len() {
                    None
                } else {
                    self.write_memory_unchecked(maddr, payload)
                }
            },
            Err(_) => None,
        }
    }

    /// Reads a big-endian value at `addr`.
    fn read<T: DecodeBE>(&self, addr: Addr) -> (r: Option<T>)
        ensures
            r matches Some(v) ==> fits(addr.0, T::spec_size() as int) && exists|b: Seq<u8>|
                b.len() == T::spec_size() && v == T::spec_decode(b),
            !fits(addr.0, T::spec_size() as int) ==> r is None,
            fits(addr.0, T::spec_size() as int) && self.serves(spec_translate(addr.0)->Some_0)
                ==> r is Some,
    {
        match self.read_memory(addr, T::packed_size()) {
            Some(b) => {
                let v = T::decode_be(b.as_slice());
                assert(b@.len() == T::spec_size() && v == T::spec_decode(b@));
                Some(v)
            },
            None => None,
        }
    }

    /// Reads the zero-terminated Shift_JIS string at `addr`, scanning at most
    /// `MAX_STRING_LENGTH` bytes and never past the end of the region.
    fn read_str(&self, addr: Addr) -> (r: Option<String>)
        ensures
            r matches Some(s) ==> spec_translate(addr.0) is Some && exists|b: Seq<u8>|
                b.len() == min_size(
                    MAX_STRING_LENGTH as int,
                    spec_translate(addr.0)->Some_0.spec_space(),
                ) && shift_jis_decode(c_prefix(b)) == Some(s@),
            spec_translate(addr.0) is None ==> r is None,
            spec_translate(addr.0) is Some && self.serves(spec_translate(addr.0)->Some_0) ==> exists|
                b: Seq<u8>,
            |
                b.len() == min_size(
                    MAX_STRING_LENGTH as int,
                    spec_translate(addr.0)->Some_0.spec_space(),
                ) && text_of(r) == shift_jis_decode(c_prefix(b)),
    {
        match self.read_memory_truncated(addr, MAX_STRING_LENGTH) {
            Some(b) => {
                let r = decode_c_string(b.as_slice());
                assert(text_of(r) == shift_jis_decode(c_prefix(b@)));
                r
            },
            None => None,
        }
    }

    /// The `size` bytes at `addr` in uppercase hexadecimal.
    fn dump_hex(&self, addr: Addr, size: usize) -> (r: Option<String>)
        ensures
            r matches Some(s) ==> fits(addr.0, size as int) && exists|b: Seq<u8>|
                b.len() == size && s@ == hex_bytes(b),
            !fits(addr.0, size as int) ==> r is None,
            fits(addr.0, size as int) && self.serves(spec_translate(addr.0)->Some_0) ==> r is Some,
    {
        match self.read_memory(addr, size) {
            Some(b) => {
                let s = bytes_to_hex(b.as_slice());
                assert(b@.len() == size && s@ == hex_bytes(b@));
                Some(s)
            },
            None => None,
        }
    }

    /// Follows an offset chain from `base`: `None` when a pointer on the way
    /// cannot be read.
    fn resolve_addr_offsets(&self, base: Addr, offsets: &AddrOffsets) -> (r: Option<Addr>)
        ensures
            offsets.1@.len() == 0 ==> r == Some(Addr(add32(base.0, offsets.0))),
            offsets.1@.len() > 0 && !fits(add32(base.0, offsets.0), 4) ==> r is None,
            offsets.1@.len() > 0 && r is Some ==> exists|p: u32| r->Some_0.0 == #[trigger] add32(p, offsets.1@.last()),
    {
        let mut addr = base.add(offsets.0);
        let mut i: usize = 0;
        let ghost mut lastp: u32 = 0;
        while i < offsets.1.len()
            invariant
                i <= offsets.1@.len(),
                i == 0 ==> addr.0 == add32(base.0, offsets.0),
                i > 0 ==> fits(add32(base.0, offsets.0), 4),
                i > 0 ==> addr.0 == add32(lastp, offsets.1@[i - 1]),
            decreases offsets.1@.len() - i,
        {
            match self.read::<Addr>(addr) {
                Some(p) => {
                    addr = p.add(offsets.1[i]);
                    proof {
                        lastp = p.0;
                    }
                },
                None => {
                    return None;
                },
            }
            i += 1;
        }
        assert(offsets.1@.len() > 0 ==> offsets.1@[i - 1] == offsets.1@.last());
        assert(offsets.1@.len() > 0 ==> addr.0 == add32(lastp, offsets.1@.last()));
        Some(addr)
    }
}

} // verus!
