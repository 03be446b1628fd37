//! Physical frame allocation from the boot memory map.
use vstd::prelude::*;

verus! {

/// Size in bytes of one physical frame (and of one virtual page).
pub const FRAME_SIZE: u64 = 4096;

/// Frame numbers at or above this bound would give physical addresses past
/// the architectural 52-bit limit.
pub const MAX_FRAME_NUMBER: u64 = 0x100_0000_0000;

/// The kind of a region of the boot memory map, as the bootloader reports it.
#[derive(Clone, Copy, Debug, PartialEq, Eq, Structural)]
pub enum MemoryRegionType {
    Usable,
    InUse,
    Reserved,
    AcpiReclaimable,
    AcpiNvs,
    BadMemory,
    Kernel,
    KernelStack,
    PageTable,
    Bootloader,
    FrameZero,
    Empty,
    BootInfo,
    Package,
    /// A kind that this map does not know.
    Unknown,
}

/// One region of the boot memory map: the frames numbered
/// `start_frame_number .. end_frame_number`.
#[derive(Clone, Copy, Debug, PartialEq, Eq, Structural)]
pub struct MemoryRegion {
    pub start_frame_number: u64,
    pub end_frame_number: u64,
    pub region_type: MemoryRegionType,
}

impl MemoryRegion {
    /// The region's frames lie below the physical address limit.
    pub open spec fn wf(self) -> bool {
        self.end_frame_number <= MAX_FRAME_NUMBER
    }

    pub open spec fn is_usable(self) -> bool {
        self.region_type == MemoryRegionType::Usable
    }

    /// Number of frames in the region (an empty range when start >= end).
    pub open spec fn frame_count(self) -> nat {
        if self.start_frame_number < self.end_frame_number {
            (self.end_frame_number - self.start_frame_number) as nat
        } else {
            0
        }
    }

    /// Start addresses of the region's frames, in ascending order.
    pub open spec fn frames(self) -> Seq<u64> {
        Seq::new(
            self.frame_count(),
            |k: int| ((self.start_frame_number + k) * FRAME_SIZE) as u64,
        )
    }
}

/// Every region of the map is well formed.
pub open spec fn memory_map_wf(map: Seq<MemoryRegion>) -> bool {
    forall|i: int| 0 <= i < map.len() ==> (#[trigger] map[i]).wf()
}

/// Usable regions are reported in ascending order and do not overlap.
pub open spec fn usable_regions_ordered(map: Seq<MemoryRegion>) -> bool {
    forall|i: int, j: int|
        0 <= i < j < map.len() && (#[trigger] map[i]).is_usable() && (#[trigger] map[j]).is_usable()
            ==> map[i].end_frame_number <= map[j].start_frame_number
}

/// Start addresses of all usable frames: the usable regions in the map's
/// order, each region's frames in ascending order.
pub open spec fn usable_frames(map: Seq<MemoryRegion>) -> Seq<u64>
    decreases map.len(),
{
    if map.len() == 0 {
        Seq::empty()
    } else {
        let last = map.last();
        usable_frames(map.drop_last()) + if last.is_usable() {
            last.frames()
        } else {
            Seq::empty()
        }
    }
}

/// A physical frame: a 4096-byte aligned region of physical memory.
#[derive(Clone, Copy, Debug, PartialEq, Eq, Structural)]
pub struct PhysFrame {
    pub start_address: u64,
}

impl PhysFrame {
    /// Aligned and below the 52-bit physical address limit.
    pub open spec fn wf(self) -> bool {
        self.start_address % FRAME_SIZE == 0 && self.start_address < MAX_FRAME_NUMBER * FRAME_SIZE
    }

    /// The frame that holds the physical address `addr`.
    pub fn containing_address(addr: u64) -> (r: PhysFrame)
        requires
            addr < MAX_FRAME_NUMBER * FRAME_SIZE,
        ensures
            r.wf(),
            r.start_address == addr - addr % FRAME_SIZE,
    {
        PhysFrame { start_address: addr - addr % FRAME_SIZE }
    }

    pub fn start_address(&self) -> (r: u64)
        ensures
            r == self.start_address,
    {
        self.start_address
    }
}

/// A source of physical frames. Each allocator announces, as `remaining`,
/// the start addresses of the frames it will hand out, in order.
pub trait FrameAllocator {
    spec fn inv(&self) -> bool;

    spec fn remaining(&self) -> Seq<u64>;

    /// What one call leaves as it was in `before`, beyond `remaining`.
    spec fn kept_from(&self, before: &Self) -> bool;

    /// Hands out the first remaining frame, or `None` when none is left.
    fn allocate_frame(&mut self) -> (r: Option<PhysFrame>)
        requires
            old(self).inv(),
        ensures
            final(self).inv(),
            final(self).kept_from(old(self)),
            old(self).remaining().len() > 0 ==> r == Some(PhysFrame { start_address: old(self).remaining()[0] })
                && final(self).remaining() == old(self).remaining().drop_first(),
            old(self).remaining().len() == 0 ==> r is None && final(self).remaining() == old(self).remaining(),
            r matches Some(f) ==> f.wf(),
    ;
}

/// Hands out the usable frames of the boot memory map, in order, each once.
pub struct BootInfoFrameAllocator {
    memory_map: Vec<MemoryRegion>,
    next: usize,
}

impl BootInfoFrameAllocator {
    /// The boot memory map this allocator draws from.
    pub closed spec fn memory_map(&self) -> Seq<MemoryRegion> {
        self.memory_map@
    }

    /// How many frames have been handed out so far.
    pub closed spec fn next(&self) -> nat {
        self.next as nat
    }

    pub open spec fn wf(&self) -> bool {
        &&& memory_map_wf(self.memory_map())
        &&& usable_frames(self.memory_map()).len() < usize::MAX
        &&& self.next() <= usable_frames(self.memory_map()).len()
    }

    /// Creates an allocator over `memory_map` that has handed out nothing yet.
    /// All frames marked usable must truly be free.
    pub fn init(memory_map: Vec<MemoryRegion>) -> (r: BootInfoFrameAllocator)
        requires
            memory_map_wf(memory_map@),
            usable_frames(memory_map@).len() < usize::MAX,
        ensures
            r.wf(),
            r.memory_map() == memory_map@,
            r.next() == 0,
    {
        BootInfoFrameAllocator { memory_map, next: 0 }
    }

    /// The frame at position `n` of the usable frames, or `None` past their end.
    fn usable_frame(&self, n: usize) -> (r: Option<PhysFrame>)
        requires
            memory_map_wf(self.memory_map()),
        ensures
            n < usable_frames(self.memory_map()).len() ==> r == Some(
                PhysFrame { start_address: usable_frames(self.memory_map())[n as int] },
            ),
            n >= usable_frames(self.memory_map()).len() ==> r is None,
    {
        let ghost map = self.memory_map@;
        let mut rest: u64 = n as u64;
        let mut i: usize = 0;
        while i < self.memory_map.len()
            invariant
                map == self.memory_map@,
                memory_map_wf(map),
                0 <= i <= map.len(),
                usable_frames(map.subrange(0, i as int)).len() + rest == n,
            decreases map.len() - i,
        {
            let region = self.memory_map[i];
            proof {
                lemma_usable_frames_step(map, i as int);
            }
            if region.region_type == MemoryRegionType::Usable
                && region.start_frame_number < region.end_frame_number {
                let count = region.end_frame_number - region.start_frame_number;
                if rest < count {
                    proof {
                        lemma_usable_frames_prefix(map, i as int + 1);
                        let p = usable_frames(map.subrange(0, i as int));
                        let q = usable_frames(map.subrange(0, i as int + 1));
                        assert(q == p + region.frames());
                        assert(q[n as int] == region.frames()[rest as int]);
                        assert(usable_frames(map).subrange(0, q.len() as int)[n as int]
                            == usable_frames(map)[n as int]);
                    }
                    return Some(
                        PhysFrame { start_address: (region.start_frame_number + rest) * FRAME_SIZE },
                    );
                }
                rest = rest - count;
            }
            i = i + 1;
        }
        proof {
            assert(map.subrange(0, map.len() as int) =~= map);
        }
        None
    }
}

impl FrameAllocator for BootInfoFrameAllocator {
    open spec fn inv(&self) -> bool {
        self.wf()
    }

    /// The usable frames not handed out yet.
    open spec fn remaining(&self) -> Seq<u64> {
        usable_frames(self.memory_map()).skip(self.next() as int)
    }

    /// The memory map is kept; the cursor moves forward, by one exactly when
    /// a frame is handed out.
    open spec fn kept_from(&self, before: &Self) -> bool {
        &&& self.memory_map() == before.memory_map()
        &&& before.next() <= self.next() <= before.next() + 1
    }

    fn allocate_frame(&mut self) -> (r: Option<PhysFrame>) {
        let frame = self.usable_frame(self.next);
        if frame.is_some() {
            self.next = self.next + 1;
        }
        proof {
            let u = usable_frames(self.memory_map@);
            assert(u.skip(self.next as int) =~= u.skip(old(self).next as int).drop_first()
                || frame is None);
            if frame is Some {
                lemma_usable_frames_wf(self.memory_map@, old(self).next as int);
            }
        }
        frame
    }
}

/// An allocator that never has a frame: for mappings that must not allocate.
pub struct EmptyFrameAllocator;

impl FrameAllocator for EmptyFrameAllocator {
    open spec fn inv(&self) -> bool {
        true
    }

    open spec fn remaining(&self) -> Seq<u64> {
        Seq::empty()
    }

    open spec fn kept_from(&self, before: &Self) -> bool {
        true
    }

    fn allocate_frame(&mut self) -> (r: Option<PhysFrame>) {
        None
    }
}

/// An allocator over a boot memory map whose usable regions are ordered hands
/// out its frames in strictly ascending order: the frame handed out at the
/// `i`-th call lies wholly below the one handed out at any later call, so all
/// of them are distinct and none overlaps another. After the last of them,
/// every call returns `None` (the contract of `allocate_frame`).
pub proof fn lemma_usable_frames_ascending(map: Seq<MemoryRegion>, i: int, j: int)
    requires
        memory_map_wf(map),
        usable_regions_ordered(map),
        0 <= i < j < usable_frames(map).len(),
    ensures
        usable_frames(map)[i] + FRAME_SIZE <= usable_frames(map)[j],
    decreases map.len(),
{
    let d = map.drop_last();
    let p = usable_frames(d);
    let last = map.last();
    assert(memory_map_wf(d)) by {
        assert forall|x: int| 0 <= x < d.len() implies (#[trigger] d[x]).wf() by {
            assert(d[x] == map[x]);
        }
    }
    assert(usable_regions_ordered(d)) by {
        assert forall|x: int, y: int|
            0 <= x < y < d.len() && (#[trigger] d[x]).is_usable() && (#[trigger] d[y]).is_usable()
                implies d[x].end_frame_number <= d[y].start_frame_number by {
            assert(d[x] == map[x] && d[y] == map[y]);
        }
    }
    if j < p.len() {
        lemma_usable_frames_ascending(d, i, j);
    } else if i >= p.len() {
        let k1 = i - p.len();
        let k2 = j - p.len();
        assert(usable_frames(map)[i] == last.frames()[k1]);
        assert(usable_frames(map)[j] == last.frames()[k2]);
        assert(map[map.len() - 1].wf());
        let s = last.start_frame_number as int;
        assert((s + k1) * 4096 + 4096 <= (s + k2) * 4096) by (nonlinear_arith)
            requires k1 < k2;
    } else {
        lemma_usable_frame_in_region(d, i);
        let k = choose|k: int|
            0 <= k < d.len() && (#[trigger] d[k]).is_usable() && d[k].start_frame_number * 4096
                <= p[i] && p[i] + 4096 <= d[k].end_frame_number * 4096;
        assert(d[k] == map[k]);
        assert(last.is_usable());
        assert(map[k].end_frame_number <= map[map.len() - 1].start_frame_number);
        let k2 = j - p.len();
        assert(usable_frames(map)[j] == last.frames()[k2]);
        assert(usable_frames(map)[i] == p[i]);
        assert(map[map.len() - 1].wf());
        let s = last.start_frame_number as int;
        let e = map[k].end_frame_number as int;
        assert(e * 4096 <= (s + k2) * 4096) by (nonlinear_arith)
            requires e <= s, 0 <= k2;
    }
}

/// Each usable frame lies within a usable region of the map.
proof fn lemma_usable_frame_in_region(map: Seq<MemoryRegion>, n: int)
    requires
        memory_map_wf(map),
        0 <= n < usable_frames(map).len(),
    ensures
        exists|k: int|
            0 <= k < map.len() && (#[trigger] map[k]).is_usable() && map[k].start_frame_number * 4096
                <= usable_frames(map)[n] && usable_frames(map)[n] + 4096 <= map[k].end_frame_number * 4096,
    decreases map.len(),
{
    let d = map.drop_last();
    let p = usable_frames(d);
    assert(memory_map_wf(d)) by {
        assert forall|x: int| 0 <= x < d.len() implies (#[trigger] d[x]).wf() by {
            assert(d[x] == map[x]);
        }
    }
    if n < p.len() {
        lemma_usable_frame_in_region(d, n);
        let k = choose|k: int|
            0 <= k < d.len() && (#[trigger] d[k]).is_usable() && d[k].start_frame_number * 4096
                <= p[n] && p[n] + 4096 <= d[k].end_frame_number * 4096;
        assert(d[k] == map[k]);
        assert(usable_frames(map)[n] == p[n]);
    } else {
        let last = map.last();
        let k = n - p.len();
        assert(usable_frames(map)[n] == last.frames()[k]);
        assert(map[map.len() - 1].wf());
        let s = last.start_frame_number as int;
        let e = last.end_frame_number as int;
        assert(s * 4096 <= (s + k) * 4096 && (s + k) * 4096 + 4096 <= e * 4096) by (nonlinear_arith)
            requires 0 <= k, s + k < e;
        assert(map[map.len() - 1].is_usable());
    }
}

/// A call of `allocate_frame` on a boot allocator that hands out a frame moves
/// its cursor forward by exactly one.
pub proof fn lemma_cursor_advances(before: BootInfoFrameAllocator, after: BootInfoFrameAllocator)
    requires
        before.wf(),
        after.wf(),
        after.kept_from(&before),
        before.remaining().len() > 0,
        after.remaining() == before.remaining().drop_first(),
    ensures
        after.next() == before.next() + 1,
        after.memory_map() == before.memory_map(),
{
    assert(after.remaining().len() == before.remaining().len() - 1);
}

/// Every usable frame of a well-formed map is a well-formed frame.
proof fn lemma_usable_frames_wf(map: Seq<MemoryRegion>, n: int)
    requires
        memory_map_wf(map),
        0 <= n < usable_frames(map).len(),
    ensures
        (PhysFrame { start_address: usable_frames(map)[n] }).wf(),
    decreases map.len(),
{
    let d = map.drop_last();
    let p = usable_frames(d);
    assert(memory_map_wf(d)) by {
        assert forall|i: int| 0 <= i < d.len() implies (#[trigger] d[i]).wf() by {
            assert(d[i] == map[i]);
        }
    }
    if n < p.len() {
        lemma_usable_frames_wf(d, n);
    } else {
        let last = map.last();
        assert(map[map.len() - 1].wf());
        let k = n - p.len();
        assert(0 <= k < last.frame_count());
        let m: int = last.start_frame_number + k;
        let a: int = m * 4096;
        assert(m < MAX_FRAME_NUMBER);
        assert(a % 4096 == 0 && 0 <= a < MAX_FRAME_NUMBER * 4096) by (nonlinear_arith)
            requires a == m * 4096, 0 <= m < MAX_FRAME_NUMBER, MAX_FRAME_NUMBER == 0x100_0000_0000int;
        assert(usable_frames(map)[n] == last.frames()[k]);
    }
}

/// The usable frames of a prefix of the map are a prefix of its usable frames.
proof fn lemma_usable_frames_prefix(map: Seq<MemoryRegion>, j: int)
    requires
        0 <= j <= map.len(),
    ensures
        usable_frames(map.subrange(0, j)).len() <= usable_frames(map).len(),
        usable_frames(map).subrange(0, usable_frames(map.subrange(0, j)).len() as int)
            == usable_frames(map.subrange(0, j)),
    decreases map.len(),
{
    if j == map.len() {
        assert(map.subrange(0, j) =~= map);
        assert(usable_frames(map).subrange(0, usable_frames(map).len() as int) =~= usable_frames(map));
    } else {
        let d = map.drop_last();
        assert(map.subrange(0, j) =~= d.subrange(0, j));
        lemma_usable_frames_prefix(d, j);
        let p = usable_frames(d.subrange(0, j));
        assert(usable_frames(map).subrange(0, p.len() as int) =~= usable_frames(d).subrange(0, p.len() as int));
    }
}

proof fn lemma_usable_frames_step(map: Seq<MemoryRegion>, i: int)
    requires
        0 <= i < map.len(),
    ensures
        usable_frames(map.subrange(0, i + 1)) == usable_frames(map.subrange(0, i)) + if map[i].is_usable() {
            map[i].frames()
        } else {
            Seq::<u64>::empty()
        },
{
    assert(map.subrange(0, i + 1).drop_last() =~= map.subrange(0, i));
}

} // verus!
