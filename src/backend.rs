use vstd::prelude::*;
use crate::dolphin::Dolphin;
use crate::mem_addr::{DolphinMemAddr, MEM1_SIZE, MEM2_SIZE};

verus! {

/// Why a mapped segment could not be opened.
#[derive(Debug, PartialEq, Eq)]
pub enum SharedMemoryOpenError {
    OpenFileFailure(String),
    MapViewFailure(String),
    MemoryUninitialized,
}

/// Byte offset of the high region inside a mapped segment.
pub const MEM2_OFFSET: u32 = 0x0404_0000;

/// Whether a mapped segment of `size` bytes is large enough to hold the high region.
pub fn segment_has_mem2(size: u32) -> (r: bool)
    ensures
        r == (size >= MEM2_OFFSET + MEM2_SIZE),
{
    size >= MEM2_OFFSET + MEM2_SIZE
}

/// Where a translated address lies inside a mapped segment.
pub open spec fn spec_segment_offset(maddr: DolphinMemAddr, has_mem2: bool) -> Option<int> {
    match maddr {
        DolphinMemAddr::MEM1(off) => Some(off as int),
        DolphinMemAddr::MEM2(off) => if has_mem2 {
            Some(MEM2_OFFSET + off)
        } else {
            None
        },
    }
}

/// Where a translated address lies inside a mapped segment: the low region
/// starts the segment, the high region starts at `MEM2_OFFSET` and is there
/// only when `has_mem2`.
pub fn segment_offset(maddr: DolphinMemAddr, has_mem2: bool) -> (r: Option<usize>)
    requires
        maddr.wf(),
    ensures
        r matches Some(o) ==> spec_segment_offset(maddr, has_mem2) == Some(o as int),
        r is None ==> spec_segment_offset(maddr, has_mem2) is None,
{
    match maddr {
        DolphinMemAddr::MEM1(off) => Some(off as usize),
        DolphinMemAddr::MEM2(off) => if has_mem2 {
            Some(MEM2_OFFSET as usize + off as usize)
        } else {
            None
        },
    }
}

/// Whether a block of `len` bytes holds the whole region that `maddr` lies in.
pub open spec fn segment_holds(maddr: DolphinMemAddr, len: int) -> bool {
    match maddr {
        DolphinMemAddr::MEM1(_) => len >= MEM1_SIZE,
        DolphinMemAddr::MEM2(_) => len >= MEM2_OFFSET + MEM2_SIZE,
    }
}

/// A mapped segment held as bytes: the low region at its start and, when the
/// block is large enough, the high region at `MEM2_OFFSET`.
pub struct MappedSegment {
    pub block: Vec<u8>,
}

impl MappedSegment {
    /// Whether the block holds the whole region that `maddr` lies in.
    pub fn holds(&self, maddr: DolphinMemAddr) -> (r: bool)
        ensures
            r == segment_holds(maddr, self.block@.len() as int),
    {
        match maddr {
            DolphinMemAddr::MEM1(_) => self.block.len() >= MEM1_SIZE as usize,
            DolphinMemAddr::MEM2(_) => self.block.len() >= (MEM2_OFFSET + MEM2_SIZE) as usize,
        }
    }

    /// Whether the segment holds the high region.
    pub open spec fn spec_has_mem2(self) -> bool {
        self.block@.len() >= MEM2_OFFSET + MEM2_SIZE
    }

    /// Whether the segment holds the high region.
    pub fn has_mem2(&self) -> (r: bool)
        ensures
            r == self.spec_has_mem2(),
    {
        self.block.len() >= (MEM2_OFFSET + MEM2_SIZE) as usize
    }
}

impl Dolphin for MappedSegment {
    open spec fn serves(&self, maddr: DolphinMemAddr) -> bool {
        segment_holds(maddr, self.block@.len() as int)
    }

    open spec fn wrote(&self, before: &Self, maddr: DolphinMemAddr, payload: Seq<u8>) -> bool {
        match spec_segment_offset(maddr, before.spec_has_mem2()) {
            Some(o) => self.block@ == before.block@.subrange(0, o) + payload + before.block@.subrange(
                o + payload.len(),
                before.block@.len() as int,
            ),
            None => false,
        }
    }

    fn read_memory_unchecked(&self, maddr: DolphinMemAddr, size: usize) -> (r: Option<Vec<u8>>)
        ensures
            r matches Some(b) ==> spec_segment_offset(maddr, self.spec_has_mem2()) matches Some(o)
                && b@ == self.block@.subrange(o, o + size),
            r is None ==> !segment_holds(maddr, self.block@.len() as int),
    {
        match segment_offset(maddr, self.has_mem2()) {
            Some(o) => {
                if !self.holds(maddr) {
                    return None;
                }
                let n = self.block.len();
                let mut v: Vec<u8> = Vec::new();
                let mut i: usize = 0;
                while i < size
                    invariant
                        i <= size,
                        n == self.block@.len(),
                        o + size <= self.block@.len(),
                        v@ == self.block@.subrange(o as int, o + i),
                    decreases size - i,
                {
                    v.push(self.block[o + i]);
                    i += 1;
                    assert(v@ =~= self.block@.subrange(o as int, o + i));
                }
                Some(v)
            },
            None => None,
        }
    }

    fn write_memory_unchecked(&mut self, maddr: DolphinMemAddr, payload: &[u8]) -> (r: Option<()>)
        ensures
            r is Some <==> segment_holds(maddr, old(self).block@.len() as int),
            r matches Some(_) ==> spec_segment_offset(maddr, old(self).spec_has_mem2()) matches Some(o)
                && final(self).block@ == old(self).block@.subrange(0, o) + payload@
                + old(self).block@.subrange(o + payload@.len(), old(self).block@.len() as int),
            r is None ==> final(self).block@ == old(self).block@,
    {
        match segment_offset(maddr, self.has_mem2()) {
            Some(o) => {
                if !self.holds(maddr) {
                    return None;
                }
                let n = self.block.len();
                let ghost before = self.block@;
                let mut i: usize = 0;
                while i < payload.len()
                    invariant
                        i <= payload@.len(),
                        n == before.len(),
                        o + payload@.len() <= before.len(),
                        self.block@.len() == before.len(),
                        forall|j: int| 0 <= j < o ==> self.block@[j] == before[j],
                        forall|j: int| o <= j < o + i ==> self.block@[j] == payload@[j - o],
                        forall|j: int| o + i <= j < before.len() ==> self.block@[j] == before[j],
                    decreases payload@.len() - i,
                {
                    self.block.set(o + i, payload[i]);
                    i += 1;
                }
                assert(self.block@ =~= before.subrange(0, o as int) + payload@ + before.subrange(
                    o + payload@.len(),
                    before.len() as int,
                ));
                Some(())
            },
            None => None,
        }
    }
}

/// Where a translated address lies in the target process: the low region at
/// `base1`, the high region at `base2` when the target has one. `None` also
/// when the sum leaves the machine's address range.
pub fn process_address(maddr: DolphinMemAddr, base1: usize, base2: Option<usize>) -> (r: Option<usize>)
    ensures
        r == (match maddr {
            DolphinMemAddr::MEM1(off) => if base1 + off <= usize::MAX {
                Some((base1 + off) as usize)
            } else {
                None
            },
            DolphinMemAddr::MEM2(off) => match base2 {
                Some(b) => if b + off <= usize::MAX {
                    Some((b + off) as usize)
                } else {
                    None
                },
                None => None,
            },
        }),
{
    match maddr {
        DolphinMemAddr::MEM1(off) => base1.checked_add(off as usize),
        DolphinMemAddr::MEM2(off) => match base2 {
            Some(b) => b.checked_add(off as usize),
            None => None,
        },
    }
}

/// Size of the target's mapping that backs the low region.
pub const MEM1_REGION_SIZE: usize = 0x0200_0000;
/// Distance from the low region's mapping to the high region's.
pub const MEM2_REGION_GAP: usize = 0x1000_0000;
/// Size of the target's mapping that backs the high region.
pub const MEM2_REGION_SIZE: usize = 0x0400_0000;

/// One entry of a target process's memory map.
#[derive(Clone, Copy, Debug, PartialEq, Eq, Structural)]
pub struct RegionInfo {
    pub base: usize,
    pub size: usize,
    pub mapped: bool,
}

/// A mapping that can back the low region.
pub open spec fn is_mem1_region(r: RegionInfo) -> bool {
    r.size == MEM1_REGION_SIZE && r.mapped
}

/// A mapping that backs the high region for a low region at `base1`.
pub open spec fn is_mem2_region(r: RegionInfo, base1: usize) -> bool {
    base1 + MEM2_REGION_GAP <= usize::MAX && r.base == base1 + MEM2_REGION_GAP && r.size
        == MEM2_REGION_SIZE && r.mapped
}

/// Finds the regions in a target's memory map: the low region is the first
/// mapping of the expected size; the high region is a later mapping of its
/// own size at the expected distance from it.
pub fn find_emu_regions(regions: &[RegionInfo]) -> (r: Option<(usize, Option<usize>)>)
    ensures
        r is None <==> forall|i: int| 0 <= i < regions@.len() ==> !is_mem1_region(regions@[i]),
        r matches Some((b1, b2)) ==> exists|i: int|
            0 <= i < regions@.len() && is_mem1_region(regions@[i]) && regions@[i].base == b1
                && (forall|k: int| 0 <= k < i ==> !is_mem1_region(regions@[k]))
                && (b2 is Some <==> exists|j: int|
                i < j < regions@.len() && is_mem2_region(regions@[j], b1))
                && (b2 matches Some(x) ==> x == b1 + MEM2_REGION_GAP),
{
    let mut i: usize = 0;
    while i < regions.len()
        invariant
            i <= regions@.len(),
            forall|k: int| 0 <= k < i ==> !is_mem1_region(regions@[k]),
        decreases regions@.len() - i,
    {
        if regions[i].size == MEM1_REGION_SIZE && regions[i].mapped {
            let b1 = regions[i].base;
            let want = b1.checked_add(MEM2_REGION_GAP);
            let mut j: usize = i + 1;
            while j < regions.len()
                invariant
                    i < j <= regions@.len(),
                    want == (if b1 + MEM2_REGION_GAP <= usize::MAX {
                        Some((b1 + MEM2_REGION_GAP) as usize)
                    } else {
                        None::<usize>
                    }),
                    forall|k: int| i < k < j ==> !is_mem2_region(regions@[k], b1),
                    forall|k: int| 0 <= k < i ==> !is_mem1_region(regions@[k]),
                    is_mem1_region(regions@[i as int]),
                    regions@[i as int].base == b1,
                decreases regions@.len() - j,
            {
                match want {
                    Some(w) => {
                        if regions[j].base == w && regions[j].size == MEM2_REGION_SIZE
                            && regions[j].mapped {
                            assert(is_mem2_region(regions@[j as int], b1));
                            assert(is_mem1_region(regions@[i as int]));
                            return Some((b1, want));
                        }
                    },
                    None => {},
                }
                j += 1;
            }
            return Some((b1, None));
        }
        i += 1;
    }
    None
}

} // verus!
