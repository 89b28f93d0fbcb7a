use vstd::prelude::*;
use crate::addr::Addr;

verus! {

/// First address of the low region.
pub const MEM1_START_ADDR: u32 = 0x8000_0000;
/// One past the last address of the low region.
pub const MEM1_END_ADDR: u32 = 0x8180_0000;
/// Size in bytes of the low region.
pub const MEM1_SIZE: u32 = 0x0180_0000;
/// First address of the high region.
pub const MEM2_START_ADDR: u32 = 0x9000_0000;
/// One past the last address of the high region.
pub const MEM2_END_ADDR: u32 = 0x9400_0000;
/// Size in bytes of the high region.
pub const MEM2_SIZE: u32 = 0x0400_0000;

/// An address translated into one of the two regions, with its offset inside it.
#[derive(Clone, Copy, Debug, PartialEq, Eq, Structural)]
pub enum DolphinMemAddr {
    MEM1(u32),
    MEM2(u32),
}

impl DolphinMemAddr {
    /// The offset lies inside its region.
    pub open spec fn wf(self) -> bool {
        match self {
            DolphinMemAddr::MEM1(off) => off < MEM1_SIZE,
            DolphinMemAddr::MEM2(off) => off < MEM2_SIZE,
        }
    }

    /// Bytes from the address to the end of its region.
    pub open spec fn spec_space(self) -> int {
        match self {
            DolphinMemAddr::MEM1(off) => MEM1_SIZE - off,
            DolphinMemAddr::MEM2(off) => MEM2_SIZE - off,
        }
    }

    /// The offset inside the region.
    pub open spec fn spec_offset(self) -> u32 {
        match self {
            DolphinMemAddr::MEM1(off) => off,
            DolphinMemAddr::MEM2(off) => off,
        }
    }

    /// Bytes from the address to the end of its region.
    pub fn space(&self) -> (r: u32)
        requires
            self.wf(),
        ensures
            r == self.spec_space(),
            r > 0,
    {
        match self {
            DolphinMemAddr::MEM1(off) => MEM1_SIZE - *off,
            DolphinMemAddr::MEM2(off) => MEM2_SIZE - *off,
        }
    }

    /// Places a logical address in the low or the high region; fails for an
    /// address in neither.
    pub fn translate(addr: Addr) -> (r: Result<DolphinMemAddr, ()>)
        ensures
            MEM1_START_ADDR <= addr.0 < MEM1_END_ADDR ==> r == Ok::<DolphinMemAddr, ()>(
                DolphinMemAddr::MEM1((addr.0 - MEM1_START_ADDR) as u32),
            ),
            MEM2_START_ADDR <= addr.0 < MEM2_END_ADDR ==> r == Ok::<DolphinMemAddr, ()>(
                DolphinMemAddr::MEM2((addr.0 - MEM2_START_ADDR) as u32),
            ),
            !(MEM1_START_ADDR <= addr.0 < MEM1_END_ADDR) && !(MEM2_START_ADDR <= addr.0
                < MEM2_END_ADDR) ==> r is Err,
            r matches Ok(m) ==> m.wf(),
            spec_translate(addr.0) == (match r {
                Ok(m) => Some(m),
                Err(_) => None,
            }),
    {
        if MEM1_START_ADDR <= addr.0 && addr.0 < MEM1_END_ADDR {
            Ok(DolphinMemAddr::MEM1(addr.0 - MEM1_START_ADDR))
        } else if MEM2_START_ADDR <= addr.0 && addr.0 < MEM2_END_ADDR {
            Ok(DolphinMemAddr::MEM2(addr.0 - MEM2_START_ADDR))
        } else {
            Err(())
        }
    }
}

/// The region and offset of a logical address, if it lies in a region.
pub open spec fn spec_translate(a: u32) -> Option<DolphinMemAddr> {
    if MEM1_START_ADDR <= a < MEM1_END_ADDR {
        Some(DolphinMemAddr::MEM1((a - MEM1_START_ADDR) as u32))
    } else if MEM2_START_ADDR <= a < MEM2_END_ADDR {
        Some(DolphinMemAddr::MEM2((a - MEM2_START_ADDR) as u32))
    } else {
        None
    }
}

/// `size` bytes from `a` lie inside one region.
pub open spec fn fits(a: u32, size: int) -> bool {
    spec_translate(a) matches Some(m) && size <= m.spec_space()
}

/// Inside either region, the room left after a translated address is exactly
/// the distance from the address to the end of that region.
pub proof fn lemma_space_is_distance_to_end(a: u32)
    ensures
        MEM1_START_ADDR <= a < MEM1_END_ADDR ==> DolphinMemAddr::MEM1(
            (a - MEM1_START_ADDR) as u32,
        ).spec_space() == MEM1_END_ADDR - a,
        MEM2_START_ADDR <= a < MEM2_END_ADDR ==> DolphinMemAddr::MEM2(
            (a - MEM2_START_ADDR) as u32,
        ).spec_space() == MEM2_END_ADDR - a,
{
}

} // verus!
