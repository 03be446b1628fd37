//! Four-level page tables: translation of virtual addresses and installation
//! of new mappings.
//!
//! Physical memory is modelled as a map from a frame's start address to the
//! 512 raw entries of the page table stored there; a frame that holds no
//! table reads as all zeros, that is, as 512 unused entries.
use std::collections::HashMap;
use vstd::prelude::*;
use crate::frame_allocator::{FrameAllocator, PhysFrame, FRAME_SIZE, MAX_FRAME_NUMBER};

verus! {

broadcast use vstd::std_specs::hash::group_hash_axioms;

/// Entries in one page table.
pub const ENTRY_COUNT: usize = 512;

/// The entry is present: the CPU follows it.
pub const PRESENT: u64 = 0x1;

/// Writes through the entry are allowed.
pub const WRITABLE: u64 = 0x2;

/// Accesses from user mode are allowed.
pub const USER_ACCESSIBLE: u64 = 0x4;

/// The entry maps a large page (2 MiB / 1 GiB) instead of a next-level table.
pub const HUGE_PAGE: u64 = 0x80;

/// The bits of an entry that hold the physical address of a frame.
pub const ADDRESS_MASK: u64 = 0x000f_ffff_ffff_f000;

/// The bits that a parent entry takes over from the flags of a new mapping.
pub const PARENT_FLAGS_MASK: u64 = 0x7;

pub open spec fn entry_addr(e: u64) -> u64 {
    e & 0x000f_ffff_ffff_f000u64
}

pub open spec fn is_present(e: u64) -> bool {
    e & 0x1u64 != 0
}

pub open spec fn is_huge(e: u64) -> bool {
    e & 0x80u64 != 0
}

/// Why a virtual address could not be translated.
#[derive(Clone, Copy, Debug, PartialEq, Eq, Structural)]
pub enum TranslateError {
    /// Some entry on the way is not present.
    NotMapped,
    /// Some entry on the way maps a huge page, which this walker does not handle.
    HugeFrame,
}

/// Why a new mapping could not be installed.
#[derive(Clone, Copy, Debug, PartialEq, Eq, Structural)]
pub enum MapToError {
    /// A new page table was needed and the allocator had no frame left.
    FrameAllocationFailed,
    /// An entry on the way maps a huge page.
    ParentEntryHugePage,
    /// The page is already mapped.
    PageAlreadyMapped,
    /// The allocator handed out a frame that already holds a page table.
    FrameAlreadyInUse,
}

/// The frame an entry leads to, or why it leads nowhere.
pub open spec fn frame_of(e: u64) -> Result<u64, TranslateError> {
    if !is_present(e) {
        Err(TranslateError::NotMapped)
    } else if is_huge(e) {
        Err(TranslateError::HugeFrame)
    } else {
        Ok(entry_addr(e))
    }
}

/// The index into the table of `level` (4 down to 1) that virtual address `a`
/// selects: four 9-bit fields above the 12-bit page offset.
pub open spec fn table_index(a: u64, level: int) -> int {
    let unit: int = if level == 4 {
        0x80_0000_0000
    } else if level == 3 {
        0x4000_0000
    } else if level == 2 {
        0x20_0000
    } else {
        0x1000
    };
    (a as int / unit) % 512
}

/// Every table stored in `mem` has 512 entries.
pub open spec fn mem_wf(mem: Map<u64, Seq<u64>>) -> bool {
    forall|f: u64| mem.contains_key(f) ==> (#[trigger] mem[f]).len() == ENTRY_COUNT
}

/// The entry at `index` of the table stored in frame `frame`; zero where no
/// table is stored.
pub open spec fn entry_at(mem: Map<u64, Seq<u64>>, frame: u64, index: int) -> u64 {
    if mem.contains_key(frame) && 0 <= index < mem[frame].len() {
        mem[frame][index]
    } else {
        0
    }
}

/// The table stored in frame `frame`, as 512 entries.
pub open spec fn table_at(mem: Map<u64, Seq<u64>>, frame: u64) -> Seq<u64> {
    if mem.contains_key(frame) {
        mem[frame]
    } else {
        Seq::new(ENTRY_COUNT as nat, |i: int| 0u64)
    }
}

/// The entry that a walk for `a` from the level-4 table in `root` reads at
/// `level`, each level's table being the one the level above points to.
pub open spec fn walk_entry(mem: Map<u64, Seq<u64>>, root: u64, a: u64, level: int) -> u64
    decreases 4 - level,
{
    if level >= 4 {
        entry_at(mem, root, table_index(a, 4))
    } else {
        entry_at(mem, entry_addr(walk_entry(mem, root, a, level + 1)), table_index(a, level))
    }
}

/// The reference walk: the physical address that `a` translates to, or the
/// reason it does not translate.
pub open spec fn translate_spec(mem: Map<u64, Seq<u64>>, root: u64, a: u64) -> Result<u64, TranslateError> {
    match frame_of(walk_entry(mem, root, a, 4)) {
        Err(e) => Err(e),
        Ok(_) => match frame_of(walk_entry(mem, root, a, 3)) {
            Err(e) => Err(e),
            Ok(_) => match frame_of(walk_entry(mem, root, a, 2)) {
                Err(e) => Err(e),
                Ok(_) => match frame_of(walk_entry(mem, root, a, 1)) {
                    Err(e) => Err(e),
                    Ok(f) => Ok((f + a % 4096) as u64),
                },
            },
        },
    }
}

/// The flags of a page-table entry: every bit outside the address field.
#[derive(Clone, Copy, Debug, PartialEq, Eq, Structural)]
pub struct PageTableFlags {
    bits: u64,
}

impl PageTableFlags {
    pub closed spec fn view(self) -> u64 {
        self.bits
    }

    /// No bit of the address field is set.
    pub open spec fn wf(self) -> bool {
        self@ & 0x000f_ffff_ffff_f000u64 == 0
    }

    /// The flags of `bits`, with the address bits cleared.
    pub fn from_bits_truncate(bits: u64) -> (r: PageTableFlags)
        ensures
            r@ == bits & !0x000f_ffff_ffff_f000u64,
            r.wf(),
    {
        let r = PageTableFlags { bits: bits & !ADDRESS_MASK };
        assert((bits & !0x000f_ffff_ffff_f000u64) & 0x000f_ffff_ffff_f000u64 == 0) by (bit_vector);
        r
    }

    pub fn bits(&self) -> (r: u64)
        ensures
            r == self@,
    {
        self.bits
    }
}

/// A virtual page: a 4096-byte aligned region of virtual memory.
#[derive(Clone, Copy, Debug, PartialEq, Eq, Structural)]
pub struct Page {
    pub start_address: u64,
}

impl Page {
    pub open spec fn wf(self) -> bool {
        self.start_address % FRAME_SIZE == 0
    }

    /// The page that holds virtual address `addr`.
    pub fn containing_address(addr: u64) -> (r: Page)
        ensures
            r.wf(),
            r.start_address == addr - addr % FRAME_SIZE,
    {
        Page { start_address: addr - addr % FRAME_SIZE }
    }

    pub fn start_address(&self) -> (r: u64)
        ensures
            r == self.start_address,
    {
        self.start_address
    }
}

/// The page tables of one address space: the frame of the active level-4
/// table and the physical memory that holds the tables.
pub struct AddressSpace {
    level_4_frame: u64,
    tables: HashMap<u64, Vec<u64>>,
}

impl AddressSpace {
    pub closed spec fn level_4_frame(&self) -> u64 {
        self.level_4_frame
    }

    /// The tables in physical memory, by the start address of their frame.
    pub closed spec fn mem(&self) -> Map<u64, Seq<u64>> {
        self.tables@.map_values(|t: Vec<u64>| t@)
    }

    pub open spec fn wf(&self) -> bool {
        mem_wf(self.mem())
    }

    /// An address space whose level-4 table lies in `level_4_frame` and whose
    /// tables are all still empty.
    pub fn new(level_4_frame: PhysFrame) -> (r: AddressSpace)
        ensures
            r.wf(),
            r.level_4_frame() == level_4_frame.start_address,
            r.mem() == Map::<u64, Seq<u64>>::empty(),
    {
        let r = AddressSpace { level_4_frame: level_4_frame.start_address, tables: HashMap::new() };
        assert(r.mem() =~= Map::<u64, Seq<u64>>::empty());
        r
    }

    pub fn level_4_table_frame(&self) -> (r: u64)
        ensures
            r == self.level_4_frame(),
    {
        self.level_4_frame
    }

    /// The raw entry at `index` of the table in frame `table`.
    pub fn entry(&self, table: u64, index: usize) -> (r: u64)
        requires
            self.wf(),
            index < ENTRY_COUNT,
        ensures
            r == entry_at(self.mem(), table, index as int),
    {
        match self.tables.get(&table) {
            Some(t) => {
                assert(self.mem()[table] == t@);
                t[index]
            },
            None => 0,
        }
    }

    /// Writes the raw entry at `index` of the table in frame `table`.
    pub fn set_entry(&mut self, table: u64, index: usize, entry: u64)
        requires
            old(self).wf(),
            index < ENTRY_COUNT,
        ensures
            final(self).wf(),
            final(self).level_4_frame() == old(self).level_4_frame(),
            final(self).mem() == old(self).mem().insert(
                table,
                table_at(old(self).mem(), table).update(index as int, entry),
            ),
    {
        let ghost m0 = self.mem();
        let mut t = match self.tables.remove(&table) {
            Some(t) => t,
            None => vec![0u64; ENTRY_COUNT],
        };
        assert(t@ =~= table_at(m0, table));
        t.set(index, entry);
        self.tables.insert(table, t);
        assert(self.mem() =~= m0.insert(table, table_at(m0, table).update(index as int, entry)));
    }
}

impl AddressSpace {
    /// The frame that `entry` leads to, or why it leads nowhere.
    fn next_frame(entry: u64) -> (r: Result<u64, TranslateError>)
        ensures
            r == frame_of(entry),
            r matches Ok(f) ==> f <= ADDRESS_MASK && f % FRAME_SIZE == 0,
    {
        if entry & PRESENT == 0 {
            Err(TranslateError::NotMapped)
        } else if entry & HUGE_PAGE != 0 {
            Err(TranslateError::HugeFrame)
        } else {
            let f = entry & ADDRESS_MASK;
            assert(entry & 0x000f_ffff_ffff_f000u64 <= 0x000f_ffff_ffff_f000u64) by (bit_vector);
            assert((entry & 0x000f_ffff_ffff_f000u64) % 4096 == 0) by (bit_vector);
            Ok(f)
        }
    }

    /// Walks the four levels of tables for virtual address `addr`, starting at
    /// the active level-4 table: the physical address it maps to, or why not.
    fn walk(&self, addr: u64) -> (r: Result<u64, TranslateError>)
        requires
            self.wf(),
        ensures
            r == translate_spec(self.mem(), self.level_4_frame(), addr),
    {
        let ghost mem = self.mem();
        let ghost root = self.level_4_frame;
        let e4 = self.entry(self.level_4_frame, (addr / 0x80_0000_0000 % 512) as usize);
        assert(e4 == walk_entry(mem, root, addr, 4));
        let p3 = match Self::next_frame(e4) {
            Ok(f) => f,
            Err(e) => return Err(e),
        };
        let e3 = self.entry(p3, (addr / 0x4000_0000 % 512) as usize);
        assert(e3 == walk_entry(mem, root, addr, 3));
        let p2 = match Self::next_frame(e3) {
            Ok(f) => f,
            Err(e) => return Err(e),
        };
        let e2 = self.entry(p2, (addr / 0x20_0000 % 512) as usize);
        assert(e2 == walk_entry(mem, root, addr, 2));
        let p1 = match Self::next_frame(e2) {
            Ok(f) => f,
            Err(e) => return Err(e),
        };
        let e1 = self.entry(p1, (addr / 0x1000 % 512) as usize);
        assert(e1 == walk_entry(mem, root, addr, 1));
        let frame = match Self::next_frame(e1) {
            Ok(f) => f,
            Err(e) => return Err(e),
        };
        Ok(frame + addr % FRAME_SIZE)
    }

    /// Whether the walk for `addr` meets an entry that maps a huge page before
    /// it meets one that is not present. Such a walk is not supported: the
    /// kernel halts on it.
    pub fn meets_huge_page(&self, addr: u64) -> (r: bool)
        requires
            self.wf(),
        ensures
            r == (translate_spec(self.mem(), self.level_4_frame(), addr) == Err::<u64, TranslateError>(
                TranslateError::HugeFrame,
            )),
    {
        match self.walk(addr) {
            Err(TranslateError::HugeFrame) => true,
            _ => false,
        }
    }

    /// The physical address that virtual address `addr` maps to: the start of
    /// the frame named by its level-1 entry plus the offset of `addr` in its
    /// page; `None` (not found) when an entry on the way is not present. The
    /// walk must meet no huge page (see `meets_huge_page`).
    pub fn translate(&self, addr: u64) -> (r: Option<u64>)
        requires
            self.wf(),
            translate_spec(self.mem(), self.level_4_frame(), addr) != Err::<u64, TranslateError>(
                TranslateError::HugeFrame,
            ),
        ensures
            r == match translate_spec(self.mem(), self.level_4_frame(), addr) {
                Ok(p) => Some(p),
                Err(_) => None::<u64>,
            },
    {
        match self.walk(addr) {
            Ok(p) => Some(p),
            Err(_) => None,
        }
    }
}

/// Each level of the walk for `a`, from 4 down to `level`, reads an entry that
/// is present and leads to a next-level table or frame.
pub open spec fn chain_present(mem: Map<u64, Seq<u64>>, root: u64, a: u64, level: int) -> bool {
    forall|l: int| level <= l <= 4 ==> (#[trigger] frame_of(walk_entry(mem, root, a, l))) is Ok
}

/// Where the whole chain of entries for `a` is present, `a` translates to the
/// frame named by its level-1 entry plus the offset of `a` in its page.
pub proof fn lemma_translate_present(mem: Map<u64, Seq<u64>>, root: u64, a: u64)
    requires
        chain_present(mem, root, a, 1),
    ensures
        translate_spec(mem, root, a) == Ok::<u64, TranslateError>(
            (entry_addr(walk_entry(mem, root, a, 1)) + a % 4096) as u64,
        ),
{
    assert(frame_of(walk_entry(mem, root, a, 4)) is Ok);
    assert(frame_of(walk_entry(mem, root, a, 3)) is Ok);
    assert(frame_of(walk_entry(mem, root, a, 2)) is Ok);
    assert(frame_of(walk_entry(mem, root, a, 1)) is Ok);
}

/// Where the walk for `a` reaches, at some level, an entry that is not
/// present, `a` does not translate: the answer is `NotMapped`, never an
/// address.
pub proof fn lemma_translate_absent(mem: Map<u64, Seq<u64>>, root: u64, a: u64, level: int)
    requires
        1 <= level <= 4,
        level < 4 ==> chain_present(mem, root, a, level + 1),
        !is_present(walk_entry(mem, root, a, level)),
    ensures
        translate_spec(mem, root, a) == Err::<u64, TranslateError>(TranslateError::NotMapped),
{
    if level < 4 {
        assert(frame_of(walk_entry(mem, root, a, 4)) is Ok);
    }
    if level < 3 {
        assert(frame_of(walk_entry(mem, root, a, 3)) is Ok);
    }
    if level < 2 {
        assert(frame_of(walk_entry(mem, root, a, 2)) is Ok);
    }
}

/// `new` keeps what `old` says of the walk: an entry that was in use keeps
/// its address, its huge-page bit, and its presence.
pub open spec fn entry_extends(old: u64, new: u64) -> bool {
    old != 0 ==> {
        &&& new != 0
        &&& entry_addr(new) == entry_addr(old)
        &&& is_huge(new) == is_huge(old)
        &&& (is_present(old) ==> is_present(new))
    }
}

/// `new` only adds to `old`: every entry in use keeps what the walk reads of it.
pub open spec fn mem_extends(old: Map<u64, Seq<u64>>, new: Map<u64, Seq<u64>>) -> bool {
    forall|f: u64, i: int|
        #![trigger entry_at(old, f, i)]
        #![trigger entry_at(new, f, i)]
        entry_extends(entry_at(old, f, i), entry_at(new, f, i))
}

proof fn lemma_extends_trans(m1: Map<u64, Seq<u64>>, m2: Map<u64, Seq<u64>>, m3: Map<u64, Seq<u64>>)
    requires
        mem_extends(m1, m2),
        mem_extends(m2, m3),
    ensures
        mem_extends(m1, m3),
{
    assert forall|f: u64, i: int| #[trigger] entry_at(m3, f, i) == entry_at(m3, f, i) implies
        entry_extends(entry_at(m1, f, i), entry_at(m3, f, i)) by {
        assert(entry_extends(entry_at(m1, f, i), entry_at(m2, f, i)));
        assert(entry_extends(entry_at(m2, f, i), entry_at(m3, f, i)));
    }
}

/// Adding to the tables never changes where an address that translated before
/// translates to.
proof fn lemma_extends_translate(m1: Map<u64, Seq<u64>>, m2: Map<u64, Seq<u64>>, root: u64, a: u64)
    requires
        mem_extends(m1, m2),
        translate_spec(m1, root, a) is Ok,
    ensures
        translate_spec(m2, root, a) == translate_spec(m1, root, a),
{
    let w14 = walk_entry(m1, root, a, 4);
    let w13 = walk_entry(m1, root, a, 3);
    let w12 = walk_entry(m1, root, a, 2);
    let w11 = walk_entry(m1, root, a, 1);
    assert(is_present(w14) && is_present(w13) && is_present(w12) && is_present(w11));
    assert(is_present(w14) ==> w14 != 0) by (bit_vector);
    assert(is_present(w13) ==> w13 != 0) by (bit_vector);
    assert(is_present(w12) ==> w12 != 0) by (bit_vector);
    assert(is_present(w11) ==> w11 != 0) by (bit_vector);
    assert(entry_extends(w14, entry_at(m2, root, table_index(a, 4))));
    assert(walk_entry(m2, root, a, 4) == entry_at(m2, root, table_index(a, 4)));
    let f3 = entry_addr(w14);
    assert(w13 == entry_at(m1, f3, table_index(a, 3)));
    assert(entry_extends(w13, entry_at(m2, f3, table_index(a, 3))));
    assert(walk_entry(m2, root, a, 3) == entry_at(m2, f3, table_index(a, 3)));
    let f2 = entry_addr(w13);
    assert(w12 == entry_at(m1, f2, table_index(a, 2)));
    assert(entry_extends(w12, entry_at(m2, f2, table_index(a, 2))));
    assert(walk_entry(m2, root, a, 2) == entry_at(m2, f2, table_index(a, 2)));
    let f1 = entry_addr(w12);
    assert(w11 == entry_at(m1, f1, table_index(a, 1)));
    assert(entry_extends(w11, entry_at(m2, f1, table_index(a, 1))));
    assert(walk_entry(m2, root, a, 1) == entry_at(m2, f1, table_index(a, 1)));
}

/// Setting flags that hold no address bit and no huge-page bit on an entry
/// keeps its address and huge-page bit; setting `PRESENT` makes it present.
proof fn lemma_or_flags(e: u64, fl: u64)
    requires
        fl & 0x000f_ffff_ffff_f000u64 == 0,
        fl & 0x80u64 == 0,
    ensures
        entry_extends(e, e | fl),
        (fl & 1u64 != 0) ==> is_present(e | fl),
        (e | fl) & fl == fl,
{
    assert(e != 0 ==> e | fl != 0) by (bit_vector);
    assert((e | fl) & 0x000f_ffff_ffff_f000u64 == e & 0x000f_ffff_ffff_f000u64) by (bit_vector)
        requires fl & 0x000f_ffff_ffff_f000u64 == 0;
    assert((e | fl) & 0x80u64 == e & 0x80u64) by (bit_vector)
        requires fl & 0x80u64 == 0;
    assert(e & 1u64 != 0 ==> (e | fl) & 1u64 != 0) by (bit_vector);
    assert(fl & 1u64 != 0 ==> (e | fl) & 1u64 != 0) by (bit_vector);
    assert((e | fl) & fl == fl) by (bit_vector);
}

/// An entry made of an aligned frame address and flags without address bits
/// names that frame and carries those flags.
proof fn lemma_make_entry(addr: u64, fl: u64)
    requires
        addr % 4096 == 0,
        addr < MAX_FRAME_NUMBER * FRAME_SIZE,
        fl & 0x000f_ffff_ffff_f000u64 == 0,
    ensures
        entry_addr(addr | fl) == addr,
        is_present(addr | fl) == (fl & 1u64 != 0),
        is_huge(addr | fl) == (fl & 0x80u64 != 0),
{
    assert(addr & 0xfffu64 == 0) by (bit_vector)
        requires addr % 4096 == 0;
    assert((addr | fl) & 0x000f_ffff_ffff_f000u64 == addr) by (bit_vector)
        requires addr & 0xfffu64 == 0, addr < 0x10_0000_0000_0000u64,
            fl & 0x000f_ffff_ffff_f000u64 == 0;
    assert((addr | fl) & 1u64 == fl & 1u64) by (bit_vector)
        requires addr & 0xfffu64 == 0;
    assert((addr | fl) & 0x80u64 == fl & 0x80u64) by (bit_vector)
        requires addr & 0xfffu64 == 0;
}

/// Writing `v` at `(table, index)` where an unused entry stood, or where `v`
/// extends the old entry, only adds to the tables.
proof fn lemma_set_extends(m: Map<u64, Seq<u64>>, table: u64, index: int, v: u64)
    requires
        mem_wf(m),
        0 <= index < 512,
        entry_extends(entry_at(m, table, index), v),
    ensures
        mem_extends(m, m.insert(table, table_at(m, table).update(index, v))),
        mem_wf(m.insert(table, table_at(m, table).update(index, v))),
        entry_at(m.insert(table, table_at(m, table).update(index, v)), table, index) == v,
{
    let m2 = m.insert(table, table_at(m, table).update(index, v));
    assert forall|f: u64, i: int| #[trigger] entry_at(m2, f, i) == entry_at(m2, f, i) implies
        entry_extends(entry_at(m, f, i), entry_at(m2, f, i)) by {
        if f == table && 0 <= i < 512 && i != index {
            assert(entry_at(m2, f, i) == entry_at(m, f, i));
        }
    }
}

impl AddressSpace {
    /// Follows the entry at `index` of the table in frame `table` to the next
    /// table, creating that table in a fresh frame from `allocator` where the
    /// entry is unused, and setting `insert_flags` on the entry.
    fn create_next_table<A: FrameAllocator>(
        &mut self,
        table: u64,
        index: usize,
        insert_flags: u64,
        allocator: &mut A,
    ) -> (r: Result<u64, MapToError>)
        requires
            old(self).wf(),
            old(allocator).inv(),
            index < ENTRY_COUNT,
            insert_flags & 0x000f_ffff_ffff_f000u64 == 0,
            insert_flags & 0x80u64 == 0,
            insert_flags & 1u64 != 0 || is_present(entry_at(old(self).mem(), table, index as int)),
        ensures
            final(self).wf(),
            final(allocator).inv(),
            final(self).level_4_frame() == old(self).level_4_frame(),
            mem_extends(old(self).mem(), final(self).mem()),
            final(allocator).remaining() == old(allocator).remaining() || (old(allocator).remaining().len()
                > 0 && final(allocator).remaining() == old(allocator).remaining().drop_first()),
            entry_at(old(self).mem(), table, index as int) != 0 ==> final(allocator).remaining()
                == old(allocator).remaining(),
            entry_at(old(self).mem(), table, index as int) != 0 ==> (r is Err <==> is_huge(
                entry_at(old(self).mem(), table, index as int),
            )),
            r matches Err(e) ==> (e == MapToError::ParentEntryHugePage || e == MapToError::FrameAllocationFailed
                || e == MapToError::FrameAlreadyInUse),
            r is Err ==> final(self).mem() == old(self).mem(),
            forall|f: u64, i: int|
                !(f == table && i == index as int) ==> #[trigger] entry_at(final(self).mem(), f, i)
                    == entry_at(old(self).mem(), f, i),
            r matches Err(MapToError::FrameAllocationFailed) ==> old(allocator).remaining().len() == 0,
            ({
                let e = entry_at(old(self).mem(), table, index as int);
                let rem = old(allocator).remaining();
                &&& e == 0 && rem.len() == 0 ==> r == Err::<u64, MapToError>(MapToError::FrameAllocationFailed)
                &&& e == 0 && rem.len() > 0 ==> final(allocator).remaining() == rem.drop_first()
                &&& e == 0 && rem.len() > 0 && (rem[0] == table || old(self).mem().contains_key(rem[0]))
                    ==> r == Err::<u64, MapToError>(MapToError::FrameAlreadyInUse)
                &&& e == 0 && rem.len() > 0 && !(rem[0] == table || old(self).mem().contains_key(rem[0])) ==> {
                    &&& r == Ok::<u64, MapToError>(rem[0])
                    &&& forall|g: u64|
                        #[trigger] final(self).mem().contains_key(g) <==> (old(self).mem().contains_key(g)
                            || g == table || g == rem[0])
                    &&& forall|i: int| #[trigger] entry_at(final(self).mem(), rem[0], i) == 0
                }
                &&& e != 0 && is_huge(e) ==> r == Err::<u64, MapToError>(MapToError::ParentEntryHugePage)
                &&& e != 0 && !is_huge(e) ==> {
                    &&& r == Ok::<u64, MapToError>(entry_addr(e))
                    &&& forall|g: u64|
                        #[trigger] final(self).mem().contains_key(g) <==> old(self).mem().contains_key(g)
                }
            }),
            r matches Ok(f) ==> {
                let e = entry_at(final(self).mem(), table, index as int);
                &&& is_present(e)
                &&& !is_huge(e)
                &&& entry_addr(e) == f
            },
    {
        let ghost m0 = self.mem();
        let e = self.entry(table, index);
        assert(0u64 & 1u64 == 0) by (bit_vector);
        if e == 0 {
            match allocator.allocate_frame() {
                None => Err(MapToError::FrameAllocationFailed),
                Some(frame) => {
                    let f = frame.start_address;
                    if f == table || self.tables.contains_key(&f) {
                        assert(self.mem().contains_key(f) == self.tables@.contains_key(f));
                        return Err(MapToError::FrameAlreadyInUse);
                    }
                    proof {
                        lemma_make_entry(f, insert_flags);
                        lemma_set_extends(m0, table, index as int, f | insert_flags);
                    }
                    self.set_entry(table, index, f | insert_flags);
                    let ghost m1 = self.mem();
                    assert(!m1.contains_key(f));
                    let zeros = vec![0u64; ENTRY_COUNT];
                    assert(zeros@ =~= Seq::new(512, |i: int| 0u64));
                    self.tables.insert(f, zeros);
                    proof {
                        let m2 = self.mem();
                        assert(m2 =~~= m1.insert(f, Seq::new(512, |i: int| 0u64)));
                        assert forall|g: u64, i: int| #[trigger] entry_at(m2, g, i) == entry_at(m2, g, i)
                            implies entry_extends(entry_at(m1, g, i), entry_at(m2, g, i)) by {
                            if g != f {
                                assert(entry_at(m1, g, i) == entry_at(m2, g, i));
                            } else {
                                assert(entry_at(m1, g, i) == 0);
                            }
                        }
                        lemma_extends_trans(m0, m1, m2);
                        assert(entry_at(m2, table, index as int) == entry_at(m1, table, index as int));
                        assert forall|g: u64, i: int| !(g == table && i == index as int) implies
                            #[trigger] entry_at(m2, g, i) == entry_at(m0, g, i) by {
                            if g != f {
                                assert(entry_at(m2, g, i) == entry_at(m1, g, i));
                            }
                        }
                    }
                    Ok(f)
                },
            }
        } else if e & HUGE_PAGE != 0 {
            Err(MapToError::ParentEntryHugePage)
        } else {
            proof {
                lemma_or_flags(e, insert_flags);
                assert((e & insert_flags) == insert_flags && insert_flags & 1u64 != 0 ==> e & 1u64 != 0)
                    by (bit_vector);
            }
            if e & insert_flags != insert_flags {
                proof {
                    lemma_set_extends(m0, table, index as int, e | insert_flags);
                }
                self.set_entry(table, index, e | insert_flags);
            }
            assert(forall|f: u64, i: int|
                !(f == table && i == index as int) ==> #[trigger] entry_at(self.mem(), f, i)
                    == entry_at(m0, f, i));
            Ok(e & ADDRESS_MASK)
        }
    }
}

/// What `old` says of a present entry that leads on, `new` still says.
proof fn lemma_extends_keeps(m1: Map<u64, Seq<u64>>, m2: Map<u64, Seq<u64>>, f: u64, i: int)
    requires
        mem_extends(m1, m2),
        is_present(entry_at(m1, f, i)),
    ensures
        is_present(entry_at(m2, f, i)),
        is_huge(entry_at(m2, f, i)) == is_huge(entry_at(m1, f, i)),
        entry_addr(entry_at(m2, f, i)) == entry_addr(entry_at(m1, f, i)),
{
    let e = entry_at(m1, f, i);
    assert(is_present(e) ==> e != 0) by (bit_vector);
    assert(entry_extends(e, entry_at(m2, f, i)));
}

/// The entries that lead from the level-4 table to the level-1 table for `a`
/// are all in use and none maps a huge page, so a new mapping for `a` needs no
/// new table.
pub open spec fn parents_in_use(mem: Map<u64, Seq<u64>>, root: u64, a: u64) -> bool {
    forall|l: int| 2 <= l <= 4 ==> #[trigger] walk_entry(mem, root, a, l) != 0 && !is_huge(walk_entry(mem, root, a, l))
}

/// Walking down from the level-4 table for `a`, every parent entry is
/// present, up to the first that maps a huge page.
pub open spec fn parents_reachable(mem: Map<u64, Seq<u64>>, root: u64, a: u64) -> bool {
    let w4 = walk_entry(mem, root, a, 4);
    let w3 = walk_entry(mem, root, a, 3);
    let w2 = walk_entry(mem, root, a, 2);
    is_present(w4) && (is_huge(w4) || (is_present(w3) && (is_huge(w3) || is_present(w2))))
}

/// Within one page, dividing by a multiple `4096 * m` of the page size gives
/// the same quotient for every address.
proof fn lemma_div_within_page(a: int, o: int, m: int)
    requires
        a >= 0,
        a % 4096 == 0,
        0 <= o < 4096,
        m >= 1,
    ensures
        (a + o) / (4096 * m) == a / (4096 * m),
{
    let u = 4096 * m;
    let q = a / u;
    let r = a % u;
    vstd::arithmetic::div_mod::lemma_fundamental_div_mod(a, u);
    vstd::arithmetic::div_mod::lemma_fundamental_div_mod(a, 4096);
    let k = a / 4096;
    assert(a == 4096 * k);
    assert(r == 4096 * (k - m * q)) by (nonlinear_arith)
        requires a == u * q + r, a == 4096 * k, u == 4096 * m;
    let t = k - m * q;
    assert(0 <= r < u);
    assert(t < m) by (nonlinear_arith)
        requires r == 4096 * t, r < u, u == 4096 * m;
    assert(r + o < u) by (nonlinear_arith)
        requires r == 4096 * t, t < m, t <= m - 1, o < 4096, u == 4096 * m;
    assert(a + o == q * u + (r + o)) by (nonlinear_arith)
        requires a == u * q + r;
    vstd::arithmetic::div_mod::lemma_fundamental_div_mod_converse(a + o, u, q, r + o);
}

/// Every address of a page walks the same entries as the page's start, and
/// its offset in the page is what was added to the start.
proof fn lemma_same_page(mem: Map<u64, Seq<u64>>, root: u64, a: u64, o: u64)
    requires
        a % 4096 == 0,
        o < 4096,
    ensures
        a + o <= u64::MAX,
        (a + o) % 4096 == o,
        forall|l: int| 1 <= l <= 4 ==> #[trigger] walk_entry(mem, root, (a + o) as u64, l) == walk_entry(mem, root, a, l),
{
    let b = (a + o) as u64;
    assert(a <= u64::MAX - 4095) by {
        vstd::arithmetic::div_mod::lemma_fundamental_div_mod(a as int, 4096);
        let k = a as int / 4096;
        assert(a as int == 4096 * k);
        assert(k <= 0x000f_ffff_ffff_ffff) by (nonlinear_arith)
            requires a as int == 4096 * k, a as int <= 0xffff_ffff_ffff_ffff;
        assert(4096 * k <= 0xffff_ffff_ffff_f000) by (nonlinear_arith)
            requires k <= 0x000f_ffff_ffff_ffff;
    }
    lemma_div_within_page(a as int, o as int, 1);
    lemma_div_within_page(a as int, o as int, 512);
    lemma_div_within_page(a as int, o as int, 0x4_0000);
    lemma_div_within_page(a as int, o as int, 0x800_0000);
    vstd::arithmetic::div_mod::lemma_fundamental_div_mod(a as int, 4096);
    vstd::arithmetic::div_mod::lemma_fundamental_div_mod_converse(a + o, 4096, a as int / 4096, o as int);
    assert(table_index(b, 4) == table_index(a, 4));
    assert(table_index(b, 3) == table_index(a, 3));
    assert(table_index(b, 2) == table_index(a, 2));
    assert(table_index(b, 1) == table_index(a, 1));
    assert(walk_entry(mem, root, b, 4) == walk_entry(mem, root, a, 4));
    assert(walk_entry(mem, root, b, 3) == walk_entry(mem, root, a, 3));
    assert(walk_entry(mem, root, b, 2) == walk_entry(mem, root, a, 2));
    assert(walk_entry(mem, root, b, 1) == walk_entry(mem, root, a, 1));
}

/// How many new tables a mapping for `a` needs: one for each level from the
/// first unused parent entry down.
pub open spec fn missing_tables(mem: Map<u64, Seq<u64>>, root: u64, a: u64) -> nat {
    if walk_entry(mem, root, a, 4) == 0 {
        3
    } else if walk_entry(mem, root, a, 3) == 0 {
        2
    } else if walk_entry(mem, root, a, 2) == 0 {
        1
    } else {
        0
    }
}

/// None of the parent entries in use for `a` maps a huge page.
pub open spec fn no_huge_parent(mem: Map<u64, Seq<u64>>, root: u64, a: u64) -> bool {
    forall|l: int| 1 + missing_tables(mem, root, a) < l <= 4 ==> !is_huge(#[trigger] walk_entry(mem, root, a, l))
}

/// A mapping for `a` can be installed: no parent entry in use maps a huge
/// page, and if every parent is in use, the level-1 entry is unused.
pub open spec fn mappable(mem: Map<u64, Seq<u64>>, root: u64, a: u64) -> bool {
    &&& no_huge_parent(mem, root, a)
    &&& missing_tables(mem, root, a) == 0 ==> walk_entry(mem, root, a, 1) == 0
}

/// The first `missing_tables` of `frames` are distinct and hold no table:
/// none is stored in `mem`, none is the level-4 table, and none is a table
/// that a parent entry in use for `a` leads to.
pub open spec fn fresh_frames(mem: Map<u64, Seq<u64>>, root: u64, a: u64, frames: Seq<u64>) -> bool {
    let k = missing_tables(mem, root, a);
    &&& k <= frames.len()
    &&& forall|i: int|
        0 <= i < k ==> {
            &&& !mem.contains_key(#[trigger] frames[i])
            &&& frames[i] != root
            &&& forall|l: int| 1 + k < l <= 4 ==> frames[i] != entry_addr(#[trigger] walk_entry(mem, root, a, l))
        }
    &&& forall|i: int, j: int| 0 <= i < j < k ==> #[trigger] frames[i] != #[trigger] frames[j]
}

impl AddressSpace {
    /// Maps `page` to `frame` with `flags`, creating the missing intermediate
    /// tables in frames from `allocator`. Parent entries on the way receive the
    /// present, writable and user bits of `flags`. On success, the page whose
    /// cached translation must be invalidated is returned.
    ///
    /// No check is made that `frame` is not mapped elsewhere as well: keeping
    /// physical frames unaliased is the caller's duty.
    pub fn map_to<A: FrameAllocator>(
        &mut self,
        page: Page,
        frame: PhysFrame,
        flags: PageTableFlags,
        allocator: &mut A,
    ) -> (r: Result<Page, MapToError>)
        requires
            old(self).wf(),
            old(allocator).inv(),
            page.wf(),
            frame.wf(),
            flags.wf(),
            flags@ & 0x1u64 != 0 || parents_reachable(old(self).mem(), old(self).level_4_frame(), page.start_address),
            flags@ & 0x80u64 == 0,
        ensures
            final(self).wf(),
            final(allocator).inv(),
            final(self).level_4_frame() == old(self).level_4_frame(),
            mem_extends(old(self).mem(), final(self).mem()),
            forall|a: u64|
                #[trigger] translate_spec(old(self).mem(), old(self).level_4_frame(), a) is Ok
                    ==> translate_spec(final(self).mem(), old(self).level_4_frame(), a)
                    == translate_spec(old(self).mem(), old(self).level_4_frame(), a),
            r is Ok ==> {
                &&& r == Ok::<Page, MapToError>(page)
                &&& walk_entry(final(self).mem(), final(self).level_4_frame(), page.start_address, 1)
                    == frame.start_address | flags@
                &&& flags@ & 0x1u64 != 0 ==> forall|o: u64|
                    o < 4096 ==> #[trigger] translate_spec(
                        final(self).mem(),
                        final(self).level_4_frame(),
                        (page.start_address + o) as u64,
                    ) == Ok::<u64, TranslateError>((frame.start_address + o) as u64)
                &&& flags@ & 0x1u64 != 0 ==> translate_spec(
                    final(self).mem(),
                    final(self).level_4_frame(),
                    page.start_address,
                ) == Ok::<u64, TranslateError>(frame.start_address)
            },
            parents_in_use(old(self).mem(), old(self).level_4_frame(), page.start_address) ==> {
                &&& final(allocator).remaining() == old(allocator).remaining()
                &&& (r is Ok <==> walk_entry(old(self).mem(), old(self).level_4_frame(), page.start_address, 1) == 0)
                &&& r is Err ==> r == Err::<Page, MapToError>(MapToError::PageAlreadyMapped)
            },
            r == Err::<Page, MapToError>(MapToError::FrameAllocationFailed) ==> old(allocator).remaining().len()
                < missing_tables(old(self).mem(), old(self).level_4_frame(), page.start_address),
            r == Err::<Page, MapToError>(MapToError::FrameAlreadyInUse) ==> !fresh_frames(
                old(self).mem(),
                old(self).level_4_frame(),
                page.start_address,
                old(allocator).remaining(),
            ),
            mappable(old(self).mem(), old(self).level_4_frame(), page.start_address) && fresh_frames(
                old(self).mem(),
                old(self).level_4_frame(),
                page.start_address,
                old(allocator).remaining(),
            ) ==> {
                &&& r is Ok
                &&& final(allocator).remaining() == old(allocator).remaining().skip(
                    missing_tables(old(self).mem(), old(self).level_4_frame(), page.start_address) as int,
                )
            },
            r == Err::<Page, MapToError>(MapToError::PageAlreadyMapped) <==> (parents_in_use(
                old(self).mem(),
                old(self).level_4_frame(),
                page.start_address,
            ) && walk_entry(old(self).mem(), old(self).level_4_frame(), page.start_address, 1) != 0),
            r == Err::<Page, MapToError>(MapToError::ParentEntryHugePage) <==> !no_huge_parent(
                old(self).mem(),
                old(self).level_4_frame(),
                page.start_address,
            ),
    {
        let ghost m0 = self.mem();
        let ghost root = self.level_4_frame;
        let ghost rem0 = allocator.remaining();
        let a = page.start_address;
        let parent_flags = flags.bits() & PARENT_FLAGS_MASK;
        proof {
            let fl = flags@;
            assert(fl & 0x1u64 != 0 ==> (fl & 0x7u64) & 1u64 != 0) by (bit_vector);
            assert((fl & 0x7u64) & 0x000f_ffff_ffff_f000u64 == 0) by (bit_vector);
            assert((fl & 0x7u64) & 0x80u64 == 0) by (bit_vector);
        }
        let i4 = (a / 0x80_0000_0000 % 512) as usize;
        let i3 = (a / 0x4000_0000 % 512) as usize;
        let i2 = (a / 0x20_0000 % 512) as usize;
        let i1 = (a / 0x1000 % 512) as usize;
        let ghost e4 = walk_entry(m0, root, a, 4);
        let ghost e3 = walk_entry(m0, root, a, 3);
        let ghost e2 = walk_entry(m0, root, a, 2);
        let ghost e1 = walk_entry(m0, root, a, 1);

        let r4 = self.create_next_table(self.level_4_frame, i4, parent_flags, allocator);
        let ghost m1 = self.mem();
        let ghost rem1 = allocator.remaining();
        let p3 = match r4 {
            Ok(f) => f,
            Err(e) => {
                proof { self.lemma_keeps_translations(m0); }
                return Err(e);
            },
        };
        proof {
            if parents_in_use(m0, root, a) {
                assert(walk_entry(m0, root, a, 4) != 0);
                assert(p3 == entry_addr(e4));
            }
        }
        let r3 = self.create_next_table(p3, i3, parent_flags, allocator);
        let ghost m2 = self.mem();
        let ghost rem2 = allocator.remaining();
        let p2 = match r3 {
            Ok(f) => f,
            Err(e) => {
                proof { self.lemma_keeps_translations(m0); lemma_extends_trans(m0, m1, m2); }
                return Err(e);
            },
        };
        proof {
            if parents_in_use(m0, root, a) {
                assert(walk_entry(m0, root, a, 3) != 0);
                assert(e3 == entry_at(m0, p3, i3 as int));
                assert(entry_extends(e3, entry_at(m1, p3, i3 as int)));
                assert(p2 == entry_addr(e3));
            }
        }
        let r2 = self.create_next_table(p2, i2, parent_flags, allocator);
        let ghost m3 = self.mem();
        let p1 = match r2 {
            Ok(f) => f,
            Err(e) => {
                proof {
                    lemma_extends_trans(m0, m1, m2);
                    lemma_extends_trans(m0, m2, m3);
                    self.lemma_keeps_translations(m0);
                }
                return Err(e);
            },
        };
        proof {
            lemma_extends_trans(m0, m1, m2);
            lemma_extends_trans(m0, m2, m3);
            if parents_in_use(m0, root, a) {
                assert(walk_entry(m0, root, a, 2) != 0);
                assert(e2 == entry_at(m0, p2, i2 as int));
                lemma_extends_trans(m0, m1, m2);
                assert(entry_extends(e2, entry_at(m2, p2, i2 as int)));
                assert(p1 == entry_addr(e2));
                assert(e1 == entry_at(m0, p1, i1 as int));
                assert(entry_extends(e1, entry_at(m3, p1, i1 as int)));
                if e1 == 0 {
                    assert(entry_at(m1, p1, i1 as int) == e1);
                    assert(entry_at(m2, p1, i1 as int) == e1);
                    assert(entry_at(m3, p1, i1 as int) == e1);
                }
            }
        }
        if self.entry(p1, i1) != 0 {
            proof { self.lemma_keeps_translations(m0); }
            return Err(MapToError::PageAlreadyMapped);
        }
        let entry = frame.start_address | flags.bits();
        proof {
            lemma_make_entry(frame.start_address, flags@);
            lemma_set_extends(m3, p1, i1 as int, entry);
        }
        self.set_entry(p1, i1, entry);
        proof {
            let m4 = self.mem();
            lemma_extends_trans(m0, m3, m4);
            self.lemma_keeps_translations(m0);
            // the chain written by the three steps survives the later ones
            lemma_extends_trans(m1, m2, m3);
            lemma_extends_trans(m1, m3, m4);
            lemma_extends_trans(m2, m3, m4);
            lemma_extends_keeps(m1, m4, root, i4 as int);
            lemma_extends_keeps(m2, m4, p3, i3 as int);
            lemma_extends_keeps(m3, m4, p2, i2 as int);
            assert(walk_entry(m4, root, a, 4) == entry_at(m4, root, i4 as int));
            assert(walk_entry(m4, root, a, 3) == entry_at(m4, p3, i3 as int));
            assert(walk_entry(m4, root, a, 2) == entry_at(m4, p2, i2 as int));
            assert(walk_entry(m4, root, a, 1) == entry);
            assert(a % 4096 == 0);
            if flags@ & 0x1u64 != 0 {
                assert forall|o: u64| o < 4096 implies #[trigger] translate_spec(m4, root, (a + o) as u64)
                    == Ok::<u64, TranslateError>((frame.start_address + o) as u64) by {
                    lemma_same_page(m4, root, a, o);
                    assert(frame.start_address + o < MAX_FRAME_NUMBER * FRAME_SIZE + 4096);
                }
            }
        }
        Ok(page)
    }

    /// Every address that translated under `old` translates the same now.
    proof fn lemma_keeps_translations(&self, old: Map<u64, Seq<u64>>)
        requires
            mem_extends(old, self.mem()),
        ensures
            forall|a: u64|
                #[trigger] translate_spec(old, self.level_4_frame(), a) is Ok
                    ==> translate_spec(self.mem(), self.level_4_frame(), a)
                    == translate_spec(old, self.level_4_frame(), a),
    {
        assert forall|a: u64| #[trigger] translate_spec(old, self.level_4_frame(), a) is Ok implies
            translate_spec(self.mem(), self.level_4_frame(), a) == translate_spec(old, self.level_4_frame(), a) by {
            lemma_extends_translate(old, self.mem(), self.level_4_frame(), a);
        }
    }
}

/// Physical address of the text-mode screen buffer.
pub const VGA_BUFFER_ADDRESS: u64 = 0xb8000;

/// Maps `page` to the frame of the text-mode screen buffer, present and
/// writable, and returns the page whose cached translation must be
/// invalidated. The page must be unmapped and the allocator must hold a fresh
/// frame for each missing table: a mapping that cannot be installed is a
/// fatal error. Like `map_to`, this checks nothing about other mappings of
/// that frame.
pub fn create_example_mapping<A: FrameAllocator>(
    page: Page,
    mapper: &mut AddressSpace,
    frame_allocator: &mut A,
) -> (r: Page)
    requires
        old(mapper).wf(),
        old(frame_allocator).inv(),
        page.wf(),
        mappable(old(mapper).mem(), old(mapper).level_4_frame(), page.start_address),
        fresh_frames(
            old(mapper).mem(),
            old(mapper).level_4_frame(),
            page.start_address,
            old(frame_allocator).remaining(),
        ),
    ensures
        r == page,
        final(mapper).wf(),
        final(frame_allocator).inv(),
        final(mapper).level_4_frame() == old(mapper).level_4_frame(),
        final(frame_allocator).remaining() == old(frame_allocator).remaining().skip(
            missing_tables(old(mapper).mem(), old(mapper).level_4_frame(), page.start_address) as int,
        ),
        forall|a: u64|
            #[trigger] translate_spec(old(mapper).mem(), old(mapper).level_4_frame(), a) is Ok
                ==> translate_spec(final(mapper).mem(), old(mapper).level_4_frame(), a)
                == translate_spec(old(mapper).mem(), old(mapper).level_4_frame(), a),
        walk_entry(final(mapper).mem(), final(mapper).level_4_frame(), page.start_address, 1) == 0xb8003u64,
        forall|o: u64|
            o < 4096 ==> #[trigger] translate_spec(
                final(mapper).mem(),
                final(mapper).level_4_frame(),
                (page.start_address + o) as u64,
            ) == Ok::<u64, TranslateError>((0xb8000u64 + o) as u64),
        translate_spec(final(mapper).mem(), final(mapper).level_4_frame(), page.start_address)
            == Ok::<u64, TranslateError>(0xb8000u64),
{
    let frame = PhysFrame::containing_address(VGA_BUFFER_ADDRESS);
    assert((0x1u64 | 0x2u64) == 3u64) by (bit_vector);
    let flags = PageTableFlags::from_bits_truncate(PRESENT | WRITABLE);
    assert(frame.start_address == 0xb8000);
    assert((0x3u64 & !0x000f_ffff_ffff_f000u64) == 3u64) by (bit_vector);
    assert(0xb8000u64 | 3u64 == 0xb8003u64) by (bit_vector);
    assert(3u64 & 0x1u64 != 0 && 3u64 & 0x80u64 == 0) by (bit_vector);
    assert(flags@ == 3u64);
    match mapper.map_to(page, frame, flags, frame_allocator) {
        Ok(p) => p,
        Err(_) => {
            proof {
                assert(false);
            }
            page
        },
    }
}

} // verus!
