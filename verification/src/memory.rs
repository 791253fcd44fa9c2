use vstd::prelude::*;

verus! {

/// Size of a physical frame.
pub const PAGE_SIZE: u32 = 4096;

/// Frames below this address (the first MiB) are never handed out.
pub const LOW_MEMORY_RESERVED_END: u32 = 0x0010_0000;

/// Bytes of one memory-map entry as the boot loader lays it out.
pub const MMAP_ENTRY_BYTES: usize = 24;

/// Flag bit of the multiboot information that says a memory map is present.
pub const MULTIBOOT_FLAG_MMAP: u32 = 1 << 6;

/// The multiboot information structure the boot loader hands over.
#[derive(Debug, Clone, Copy)]
pub struct MultibootInfo {
    pub flags: u32,
    pub mem_lower: u32,
    pub mem_upper: u32,
    pub boot_device: u32,
    pub cmdline: u32,
    pub mods_count: u32,
    pub mods_addr: u32,
    pub syms: [u32; 4],
    pub mmap_length: u32,
    pub mmap_addr: u32,
    pub drives_length: u32,
    pub drives_addr: u32,
    pub config_table: u32,
    pub boot_loader_name: u32,
    pub apm_table: u32,
    pub vbe_control_info: u32,
    pub vbe_mode_info: u32,
    pub vbe_mode: u16,
    pub vbe_interface_seg: u16,
    pub vbe_interface_off: u16,
    pub vbe_interface_len: u16,
}

impl MultibootInfo {
    pub open spec fn has_memory_map_spec(&self) -> bool {
        self.flags & MULTIBOOT_FLAG_MMAP != 0
    }

    /// Whether the boot loader supplied a memory map (flag bit 6).
    pub fn has_memory_map(&self) -> (r: bool)
        ensures
            r == self.has_memory_map_spec(),
    {
        self.flags & MULTIBOOT_FLAG_MMAP != 0
    }
}

/// One entry of the boot loader's memory map. `size` counts the bytes of
/// the entry after the `size` field itself.
#[derive(Debug, Clone, Copy)]
pub struct MemoryMapEntry {
    pub size: u32,
    pub base_addr_low: u32,
    pub base_addr_high: u32,
    pub length_low: u32,
    pub length_high: u32,
    pub buffer_type: u32,
}

impl MemoryMapEntry {
    /// Usable RAM has type 1.
    pub fn is_available(&self) -> (r: bool)
        ensures
            r == (self.buffer_type == 1),
    {
        self.buffer_type == 1
    }
}

/// A 4 KiB physical frame.
#[derive(Debug, Clone, Copy)]
pub struct PhysFrame {
    pub start_address: u32,
}

/// Byte `i` of the memory map; the map reads as zero past its end.
pub open spec fn byte_at(bytes: Seq<u8>, i: int) -> u8 {
    if 0 <= i < bytes.len() {
        bytes[i]
    } else {
        0
    }
}

/// Little-endian 32-bit word at `off`.
#[verifier::opaque]
pub open spec fn le_u32(bytes: Seq<u8>, off: int) -> u32 {
    (byte_at(bytes, off) as int + byte_at(bytes, off + 1) as int * 0x100 + byte_at(bytes, off + 2)
        as int * 0x1_0000 + byte_at(bytes, off + 3) as int * 0x100_0000) as u32
}

/// The entry that starts at byte `off` of the memory map.
pub open spec fn entry_at(bytes: Seq<u8>, off: int) -> MemoryMapEntry {
    MemoryMapEntry {
        size: le_u32(bytes, off),
        base_addr_low: le_u32(bytes, off + 4),
        base_addr_high: le_u32(bytes, off + 8),
        length_low: le_u32(bytes, off + 12),
        length_high: le_u32(bytes, off + 16),
        buffer_type: le_u32(bytes, off + 20),
    }
}

fn read_u32_le(bytes: &[u8], off: usize) -> (r: u32)
    requires
        off + 4 <= usize::MAX,
    ensures
        r == le_u32(bytes@, off as int),
{
    let n = bytes.len();
    let b0: u32 = if off < n { bytes[off] as u32 } else { 0 };
    let b1: u32 = if off + 1 < n { bytes[off + 1] as u32 } else { 0 };
    let b2: u32 = if off + 2 < n { bytes[off + 2] as u32 } else { 0 };
    let b3: u32 = if off + 3 < n { bytes[off + 3] as u32 } else { 0 };
    proof {
        reveal(le_u32);
    }
    b0 + b1 * 0x100 + b2 * 0x1_0000 + b3 * 0x100_0000
}

/// Reads the memory-map entry at byte `offset`.
pub fn read_entry(bytes: &[u8], offset: usize) -> (e: MemoryMapEntry)
    requires
        offset + MMAP_ENTRY_BYTES <= usize::MAX,
    ensures
        e == entry_at(bytes@, offset as int),
{
    MemoryMapEntry {
        size: read_u32_le(bytes, offset),
        base_addr_low: read_u32_le(bytes, offset + 4),
        base_addr_high: read_u32_le(bytes, offset + 8),
        length_low: read_u32_le(bytes, offset + 12),
        length_high: read_u32_le(bytes, offset + 16),
        buffer_type: read_u32_le(bytes, offset + 20),
    }
}

/// Smallest multiple of `align` that is at least `value`.
pub open spec fn align_up_spec(value: int, align: int) -> int {
    if value % align == 0 {
        value
    } else {
        value + align - value % align
    }
}

/// First address after the kernel image, rounded up to a page.
pub open spec fn kernel_end_aligned(kernel_end: u32) -> int {
    align_up_spec(kernel_end as int, PAGE_SIZE as int)
}

pub open spec fn sat_add_u32(a: u32, b: u32) -> u32 {
    if a + b > u32::MAX {
        u32::MAX
    } else {
        (a + b) as u32
    }
}

/// Start of a region: the two halves of its 64-bit base address.
pub open spec fn region_start(e: MemoryMapEntry) -> int {
    e.base_addr_low as int + e.base_addr_high as int * 0x1_0000_0000
}

/// End of a region, saturating at `u64::MAX`.
pub open spec fn region_end(e: MemoryMapEntry) -> int {
    let end = region_start(e) + e.length_low as int + e.length_high as int * 0x1_0000_0000;
    if end > u64::MAX {
        u64::MAX as int
    } else {
        end
    }
}

/// Lowest address of a region that may be handed out: its start, but not
/// below the reserved first MiB.
pub open spec fn allocation_floor(e: MemoryMapEntry) -> int {
    if region_start(e) > LOW_MEMORY_RESERVED_END {
        region_start(e)
    } else {
        LOW_MEMORY_RESERVED_END as int
    }
}

/// Whether the walk hands out frames from the entry at all: it must be
/// usable RAM whose floor lies below its end and within 32-bit addresses.
pub open spec fn region_usable(e: MemoryMapEntry) -> bool {
    e.buffer_type == 1 && allocation_floor(e) < region_end(e) && allocation_floor(e) <= u32::MAX
}

/// The next candidate frame in a region: the cursor, or, on first visit,
/// the floor rounded up to a page (kept to 32 bits). A candidate that
/// overlaps the kernel image moves to the page after the image.
pub open spec fn candidate_in(e: MemoryMapEntry, cursor: Option<u32>, ks: u32, ke: u32) -> u32 {
    let c0: u32 = match cursor {
        Some(c) => c,
        None => (align_up_spec(allocation_floor(e), PAGE_SIZE as int) % 0x1_0000_0000) as u32,
    };
    if c0 < kernel_end_aligned(ke) && sat_add_u32(c0, PAGE_SIZE) > ks {
        kernel_end_aligned(ke) as u32
    } else {
        c0
    }
}

/// Whether the candidate frame fits in the region.
pub open spec fn candidate_fits(e: MemoryMapEntry, c: u32) -> bool {
    let fe = sat_add_u32(c, PAGE_SIZE);
    fe as int <= region_end(e) && fe > c
}

/// The walk over the memory map from byte `off` with the cursor `cursor`
/// of the current region: the frame found (if any), the offset of the
/// region it came from (or the map length), and the cursor after it.
/// Unusable and exhausted regions are skipped, each moving the offset past
/// the entry (`size + 4` bytes) and clearing the cursor.
pub open spec fn walk(bytes: Seq<u8>, ks: u32, ke: u32, off: int, cursor: Option<u32>) -> (
    Option<u32>,
    int,
    Option<u32>,
)
    decreases bytes.len() - off,
{
    if off < 0 || off >= bytes.len() {
        (None, off, cursor)
    } else {
        let e = entry_at(bytes, off);
        let next = off + e.size + 4;
        if region_usable(e) && candidate_fits(e, candidate_in(e, cursor, ks, ke)) {
            let c = candidate_in(e, cursor, ks, ke);
            (Some(c), off, Some(c.wrapping_add(PAGE_SIZE)))
        } else if next >= bytes.len() {
            (None, next, None)
        } else {
            walk(bytes, ks, ke, next, None)
        }
    }
}

/// Every entry's step stays within 32-bit offsets, so walking the map never
/// overflows.
pub open spec fn steps_fit(bytes: Seq<u8>) -> bool {
    bytes.len() + MMAP_ENTRY_BYTES <= u32::MAX && forall|off: int|
        0 <= off < bytes.len() ==> off + (#[trigger] entry_at(bytes, off)).size + 4 <= u32::MAX
}

/// Whether walking `mmap` stays within 32-bit offsets (see `steps_fit`).
pub fn map_steps_fit(mmap: &[u8]) -> (r: bool)
    ensures
        r == steps_fit(mmap@),
{
    let n = mmap.len();
    if n > 0xFFFF_FFFF - MMAP_ENTRY_BYTES {
        return false;
    }
    let mut off: usize = 0;
    while off < n
        invariant
            n == mmap@.len(),
            n + MMAP_ENTRY_BYTES <= u32::MAX,
            off <= n,
            forall|k: int| 0 <= k < off ==> k + (#[trigger] entry_at(mmap@, k)).size + 4 <= u32::MAX,
        decreases n - off,
    {
        let e = read_entry(mmap, off);
        if e.size as u64 + off as u64 + 4 > 0xFFFF_FFFF {
            return false;
        }
        off += 1;
    }
    true
}

/// The entries of the memory map from byte `off` on, in order.
pub open spec fn entries_from(bytes: Seq<u8>, off: int) -> Seq<MemoryMapEntry>
    decreases bytes.len() - off,
{
    if off < 0 || off >= bytes.len() {
        Seq::empty()
    } else {
        let e = entry_at(bytes, off);
        let next = off + e.size + 4;
        if next >= bytes.len() {
            seq![e]
        } else {
            seq![e] + entries_from(bytes, next)
        }
    }
}

/// Every entry takes at least one byte of the map.
proof fn lemma_entries_from_len(bytes: Seq<u8>, off: int)
    requires
        0 <= off,
    ensures
        entries_from(bytes, off).len() <= if off < bytes.len() {
            bytes.len() - off
        } else {
            0
        },
    decreases bytes.len() - off,
{
    if off < bytes.len() {
        let next = off + entry_at(bytes, off).size + 4;
        if next < bytes.len() {
            lemma_entries_from_len(bytes, next);
        }
    }
}

/// The entries of a memory map, as the boot log lists them.
pub fn memory_map_entries(mmap: &[u8]) -> (entries: Vec<MemoryMapEntry>)
    requires
        steps_fit(mmap@),
    ensures
        entries@ == entries_from(mmap@, 0),
        entries@.len() <= mmap@.len(),
{
    proof {
        lemma_entries_from_len(mmap@, 0);
    }
    let n = mmap.len();
    let mut out: Vec<MemoryMapEntry> = Vec::new();
    let mut off: usize = 0;
    while off < n
        invariant
            n == mmap@.len(),
            steps_fit(mmap@),
            off <= u32::MAX,
            out@ + entries_from(mmap@, off as int) == entries_from(mmap@, 0),
        decreases u32::MAX - off,
    {
        let e = read_entry(mmap, off);
        assert(off + e.size + 4 <= u32::MAX);
        let next = off + e.size as usize + 4;
        proof {
            let ghost before = out@;
            if next >= n {
                assert(entries_from(mmap@, next as int) =~= Seq::<MemoryMapEntry>::empty());
            }
            assert(entries_from(mmap@, off as int) =~= seq![e] + entries_from(mmap@, next as int));
            assert(before.push(e) + entries_from(mmap@, next as int) =~= before + (seq![e]
                + entries_from(mmap@, next as int)));
        }
        out.push(e);
        off = next;
    }
    assert(out@ + entries_from(mmap@, off as int) =~= out@);
    out
}

/// Kilobytes of usable RAM the entries list (the low 32 bits of each usable
/// region's length, in whole KiB).
pub open spec fn available_kb_spec(entries: Seq<MemoryMapEntry>) -> int
    decreases entries.len(),
{
    if entries.len() == 0 {
        0
    } else {
        available_kb_spec(entries.drop_last()) + if entries.last().buffer_type == 1 {
            entries.last().length_low as int / 1024
        } else {
            0
        }
    }
}

/// Total usable RAM in KiB.
pub fn available_memory_kb(entries: &[MemoryMapEntry]) -> (kb: u64)
    requires
        entries@.len() <= u32::MAX,
    ensures
        kb == available_kb_spec(entries@),
{
    let mut total: u64 = 0;
    let mut i: usize = 0;
    while i < entries.len()
        invariant
            i <= entries@.len(),
            entries@.len() <= u32::MAX,
            total == available_kb_spec(entries@.subrange(0, i as int)),
            total <= i * 0x40_0000,
        decreases entries@.len() - i,
    {
        let e = entries[i];
        proof {
            assert(entries@.subrange(0, i as int + 1).drop_last() =~= entries@.subrange(0, i as int));
        }
        if e.is_available() {
            total = total + (e.length_low / 1024) as u64;
        }
        i += 1;
        proof {
            assert(total <= i * 0x40_0000) by (nonlinear_arith)
                requires
                    total <= (i - 1) * 0x40_0000 + 0x40_0000,
            ;
        }
    }
    assert(entries@.subrange(0, entries@.len() as int) =~= entries@);
    total
}

/// Physical frame allocator that walks the boot loader's memory map and
/// hands out 4 KiB frames in order, never reusing one.
pub struct BumpAllocator {
    mmap: Vec<u8>,
    next_free_frame: Option<u32>,
    current_mmap_offset: u32,
    kernel_start: u32,
    kernel_end: u32,
}

/// Abstract state of a `BumpAllocator`.
pub ghost struct FrameAllocatorModel {
    pub mmap: Seq<u8>,
    pub cursor: Option<u32>,
    pub offset: int,
    pub kernel_start: u32,
    pub kernel_end: u32,
}

impl View for BumpAllocator {
    type V = FrameAllocatorModel;

    closed spec fn view(&self) -> FrameAllocatorModel {
        FrameAllocatorModel {
            mmap: self.mmap@,
            cursor: self.next_free_frame,
            offset: self.current_mmap_offset as int,
            kernel_start: self.kernel_start,
            kernel_end: self.kernel_end,
        }
    }
}

impl BumpAllocator {
    /// The cursor into the current region always sits on a page boundary.
    #[verifier::type_invariant]
    closed spec fn cursor_on_page(self) -> bool {
        cursor_aligned(self.next_free_frame)
    }

    /// An allocator over the memory map `mmap` (the `mmap_length` bytes at
    /// `mmap_addr`, when the boot information has a map; otherwise no
    /// frames). `kernel_start..kernel_end` is the kernel image, which is
    /// never handed out.
    pub fn new(info: &MultibootInfo, mmap: Vec<u8>, kernel_start: u32, kernel_end: u32) -> (a:
        BumpAllocator)
        requires
            info.has_memory_map_spec() ==> mmap@.len() == info.mmap_length,
        ensures
            a@ == (FrameAllocatorModel {
                mmap: if info.has_memory_map_spec() {
                    mmap@
                } else {
                    Seq::empty()
                },
                cursor: None,
                offset: 0,
                kernel_start,
                kernel_end,
            }),
            cursor_aligned(a@.cursor),
    {
        let map = if info.has_memory_map() {
            mmap
        } else {
            Vec::new()
        };
        BumpAllocator {
            mmap: map,
            next_free_frame: None,
            current_mmap_offset: 0,
            kernel_start,
            kernel_end,
        }
    }

    /// Smallest multiple of `align` that is at least `value`.
    pub fn align_up(value: u64, align: u64) -> (r: u64)
        requires
            align > 0,
            value + align <= u64::MAX,
        ensures
            r == align_up_spec(value as int, align as int),
    {
        let remainder = value % align;
        if remainder == 0 {
            value
        } else {
            value + align - remainder
        }
    }

    fn page_after_kernel(kernel_end: u32) -> (r: u32)
        requires
            kernel_end <= u32::MAX - PAGE_SIZE,
        ensures
            r == kernel_end_aligned(kernel_end),
    {
        if kernel_end % PAGE_SIZE == 0 {
            kernel_end
        } else {
            kernel_end - (kernel_end % PAGE_SIZE) + PAGE_SIZE
        }
    }

    /// The frame a region yields for the cursor, if it yields one.
    fn try_region(entry: &MemoryMapEntry, cursor: Option<u32>, kernel_start: u32, kernel_end: u32) -> (r:
        Option<u32>)
        requires
            kernel_end <= u32::MAX - PAGE_SIZE,
        ensures
            r == (if region_usable(*entry) && candidate_fits(
                *entry,
                candidate_in(*entry, cursor, kernel_start, kernel_end),
            ) {
                Some(candidate_in(*entry, cursor, kernel_start, kernel_end))
            } else {
                None::<u32>
            }),
    {
        if !entry.is_available() {
            return None;
        }
        let start: u64 = (entry.base_addr_low as u64) | ((entry.base_addr_high as u64) << 32);
        let length: u64 = (entry.length_low as u64) | ((entry.length_high as u64) << 32);
        proof {
            lemma_combine_halves(entry.base_addr_low, entry.base_addr_high);
            lemma_combine_halves(entry.length_low, entry.length_high);
        }
        let end = start.saturating_add(length);
        let floor = if start > LOW_MEMORY_RESERVED_END as u64 {
            start
        } else {
            LOW_MEMORY_RESERVED_END as u64
        };
        if floor >= end || floor > 0xFFFF_FFFF {
            return None;
        }
        let c0: u32 = match cursor {
            Some(c) => c,
            None => {
                let aligned = Self::align_up(floor, PAGE_SIZE as u64);
                assert((aligned as u32) == (aligned % 0x1_0000_0000) as u32) by (bit_vector);
                aligned as u32
            },
        };
        let kernel_end_aligned = Self::page_after_kernel(kernel_end);
        let c0_end = c0.saturating_add(PAGE_SIZE);
        let candidate = if c0 < kernel_end_aligned && c0_end > kernel_start {
            kernel_end_aligned
        } else {
            c0
        };
        let frame_end = candidate.saturating_add(PAGE_SIZE);
        if (frame_end as u64) <= end && frame_end > candidate {
            Some(candidate)
        } else {
            None
        }
    }

    /// Where the walk over the map stops from the current position: the
    /// frame it finds (if any), the offset it stops at and the cursor it
    /// leaves (a wrapped-around cursor after the last page below 4 GiB).
    pub fn peek_frame(&self) -> (r: (Option<u32>, u32, Option<u32>))
        requires
            steps_fit(self@.mmap),
            self@.kernel_end <= u32::MAX - PAGE_SIZE,
        ensures
            (r.0, r.1 as int, r.2) == walk_model(self@),
    {
        let len = self.mmap.len();
        let ghost b = self.mmap@;
        let ghost ks = self.kernel_start;
        let ghost ke = self.kernel_end;
        let mut off = self.current_mmap_offset;
        let mut cursor = self.next_free_frame;
        while (off as usize) < len
            invariant
                len == b.len(),
                self.mmap@ == b,
                self.kernel_start == ks,
                self.kernel_end == ke,
                steps_fit(b),
                ke <= u32::MAX - PAGE_SIZE,
                walk(b, ks, ke, off as int, cursor) == walk_model(self@),
            decreases u32::MAX - off,
        {
            let entry = read_entry(self.mmap.as_slice(), off as usize);
            assert(off + entry.size + 4 <= u32::MAX);
            let next = off + entry.size + 4;
            match Self::try_region(&entry, cursor, self.kernel_start, self.kernel_end) {
                Some(candidate) => {
                    return (Some(candidate), off, Some(candidate.wrapping_add(PAGE_SIZE)));
                },
                None => {
                    off = next;
                    cursor = None;
                },
            }
        }
        (None, off, cursor)
    }

    /// The next free frame, or `None` once the map is used up. The frame lies
    /// in usable RAM above the first MiB and clear of the kernel image (see
    /// `walk`); frames come out in map order and never twice.
    pub fn allocate_frame(&mut self) -> (r: Option<PhysFrame>)
        requires
            steps_fit(old(self)@.mmap),
            old(self)@.kernel_end <= u32::MAX - PAGE_SIZE,
            walk_model(old(self)@).0 matches Some(c) ==> c + PAGE_SIZE <= u32::MAX,
        ensures
            ({
                let (f, off, cur) = walk_model(old(self)@);
                &&& match r {
                    Some(frame) => f == Some(frame.start_address),
                    None => f is None,
                }
                &&& final(self)@ == (FrameAllocatorModel { cursor: cur, offset: off, ..old(self)@ })
            }),
            cursor_aligned(final(self)@.cursor),
    {
        proof {
            use_type_invariant(&*self);
            law_frames_page_aligned(self@);
        }
        let (frame, off, cursor) = self.peek_frame();
        self.current_mmap_offset = off;
        self.next_free_frame = cursor;
        match frame {
            Some(c) => Some(PhysFrame { start_address: c }),
            None => None,
        }
    }
}

/// The walk from an allocator's current state.
pub open spec fn walk_model(m: FrameAllocatorModel) -> (Option<u32>, int, Option<u32>) {
    walk(m.mmap, m.kernel_start, m.kernel_end, m.offset, m.cursor)
}

proof fn lemma_combine_halves(low: u32, high: u32)
    ensures
        (low as u64) | ((high as u64) << 32) == low as int + high as int * 0x1_0000_0000,
{
    assert((low as u64) | ((high as u64) << 32) == (low as u64) + (high as u64) * 0x1_0000_0000u64)
        by (bit_vector);
}


// ---------------------------------------------------------------------------
// Laws of the frame allocator

pub open spec fn page_aligned(x: int) -> bool {
    x % (PAGE_SIZE as int) == 0
}

pub open spec fn cursor_aligned(c: Option<u32>) -> bool {
    match c {
        Some(x) => page_aligned(x as int),
        None => true,
    }
}

proof fn lemma_candidate_aligned(e: MemoryMapEntry, cursor: Option<u32>, ks: u32, ke: u32)
    requires
        cursor_aligned(cursor),
        region_usable(e),
        ke <= u32::MAX - PAGE_SIZE,
    ensures
        page_aligned(candidate_in(e, cursor, ks, ke) as int),
{
    let f = allocation_floor(e);
    let a = align_up_spec(f, PAGE_SIZE as int);
    assert(page_aligned(a) && f <= a < f + 4096) by {
        if f % 4096 != 0 {
            assert((f + 4096 - f % 4096) % 4096 == 0) by (nonlinear_arith)
                requires
                    f >= 0,
            ;
        }
    }
    if a > u32::MAX {
        assert(a == 0x1_0000_0000) by (nonlinear_arith)
            requires
                a % 4096 == 0,
                0x1_0000_0000 <= a < 0x1_0000_0000 + 4096,
        ;
    }
    let kea = kernel_end_aligned(ke);
    assert(page_aligned(kea)) by {
        let k = ke as int;
        if k % 4096 != 0 {
            assert((k + 4096 - k % 4096) % 4096 == 0) by (nonlinear_arith)
                requires
                    k >= 0,
            ;
        }
    }
}

/// Every frame handed out starts on a page boundary: starting from an
/// allocator whose cursor is aligned (as a new one is), the frame found is
/// page aligned and so is the cursor left behind.
pub proof fn law_frames_page_aligned(m: FrameAllocatorModel)
    requires
        cursor_aligned(m.cursor),
        m.kernel_end <= u32::MAX - PAGE_SIZE,
    ensures
        walk_model(m).0 matches Some(c) ==> page_aligned(c as int),
        (walk_model(m).0 matches Some(c) ==> c + PAGE_SIZE <= u32::MAX) ==> cursor_aligned(
            walk_model(m).2,
        ),
    decreases m.mmap.len() - m.offset,
{
    let b = m.mmap;
    let off = m.offset;
    if 0 <= off < b.len() {
        let e = entry_at(b, off);
        let next = off + e.size + 4;
        if region_usable(e) && candidate_fits(e, candidate_in(e, m.cursor, m.kernel_start, m.kernel_end)) {
            lemma_candidate_aligned(e, m.cursor, m.kernel_start, m.kernel_end);
        } else if next < b.len() {
            law_frames_page_aligned(FrameAllocatorModel { offset: next, cursor: None, ..m });
        }
    }
}

/// A frame handed out never overlaps the kernel image.
pub proof fn law_frames_avoid_kernel(m: FrameAllocatorModel)
    requires
        m.kernel_start <= m.kernel_end <= u32::MAX - PAGE_SIZE,
    ensures
        walk_model(m).0 matches Some(c) ==> c + PAGE_SIZE <= m.kernel_start || c >= m.kernel_end,
    decreases m.mmap.len() - m.offset,
{
    let b = m.mmap;
    let off = m.offset;
    if 0 <= off < b.len() {
        let e = entry_at(b, off);
        let next = off + e.size + 4;
        let c = candidate_in(e, m.cursor, m.kernel_start, m.kernel_end);
        if region_usable(e) && candidate_fits(e, c) {
            let k = m.kernel_end as int;
            assert(kernel_end_aligned(m.kernel_end) >= k);
        } else if next < b.len() {
            law_frames_avoid_kernel(FrameAllocatorModel { offset: next, cursor: None, ..m });
        }
    }
}

proof fn lemma_walk_offset_grows(b: Seq<u8>, ks: u32, ke: u32, off: int, cursor: Option<u32>)
    requires
        0 <= off,
    ensures
        walk(b, ks, ke, off, cursor).1 >= off,
    decreases b.len() - off,
{
    if off < b.len() {
        let e = entry_at(b, off);
        let next = off + e.size + 4;
        if !(region_usable(e) && candidate_fits(e, candidate_in(e, cursor, ks, ke))) && next
            < b.len() {
            lemma_walk_offset_grows(b, ks, ke, next, None);
        }
    }
}

/// Frames from one region come out in increasing order: when two
/// successive allocations find their frames in the same map entry, the
/// second lies wholly above the first.
pub proof fn law_frames_increase_within_region(m: FrameAllocatorModel)
    requires
        m.kernel_end <= u32::MAX - PAGE_SIZE,
        walk_model(m).0 matches Some(c) && c + PAGE_SIZE <= u32::MAX,
    ensures
        ({
            let (f1, off1, cur1) = walk_model(m);
            let m2 = FrameAllocatorModel { offset: off1, cursor: cur1, ..m };
            let (f2, off2, _) = walk_model(m2);
            f2 is Some && off2 == off1 ==> f2.unwrap() >= f1.unwrap() + PAGE_SIZE
        }),
    decreases m.mmap.len() - m.offset,
{
    let b = m.mmap;
    let off = m.offset;
    if 0 <= off < b.len() {
        let e = entry_at(b, off);
        let next = off + e.size + 4;
        let c = candidate_in(e, m.cursor, m.kernel_start, m.kernel_end);
        if region_usable(e) && candidate_fits(e, c) {
            let c1 = c.wrapping_add(PAGE_SIZE);
            assert(c1 == c + PAGE_SIZE);
            let m2 = FrameAllocatorModel { offset: off, cursor: Some(c1), ..m };
            assert(walk_model(m).2 == Some(c1));
            let c2 = candidate_in(e, Some(c1), m.kernel_start, m.kernel_end);
            assert(c2 >= c1);
            if !(region_usable(e) && candidate_fits(e, c2)) && next < b.len() {
                lemma_walk_offset_grows(b, m.kernel_start, m.kernel_end, next, None);
            }
        } else if next < b.len() {
            law_frames_increase_within_region(FrameAllocatorModel { offset: next, cursor: None, ..m });
        }
    }
}


// ---------------------------------------------------------------------------
// Laws over runs of allocations

/// Offset of the entry after the one at `a`.
pub open spec fn next_entry(bytes: Seq<u8>, a: int) -> int {
    a + entry_at(bytes, a).size + 4
}

/// The walk over the map, stepping entry by entry from offset `a`, comes
/// to offset `b` (`a` itself included).
pub open spec fn reaches(bytes: Seq<u8>, a: int, b: int) -> bool
    decreases bytes.len() - a,
{
    if a == b {
        true
    } else if a < 0 || a >= bytes.len() {
        false
    } else if next_entry(bytes, a) >= bytes.len() {
        b == next_entry(bytes, a)
    } else {
        reaches(bytes, next_entry(bytes, a), b)
    }
}

/// The entry at `a` is in the map and describes usable RAM.
pub open spec fn usable_at(bytes: Seq<u8>, a: int) -> bool {
    0 <= a < bytes.len() && entry_at(bytes, a).buffer_type == 1
}

/// The usable entries of the map (those the walk from the start meets) end
/// at or below 0xFFFFF000 and no two of them overlap.
pub open spec fn map_regions_ok(bytes: Seq<u8>) -> bool {
    &&& forall|a: int|
        #[trigger] reaches(bytes, 0, a) && usable_at(bytes, a) ==> region_end(entry_at(bytes, a))
            <= 0xFFFF_F000
    &&& forall|a: int, b: int|
        #![trigger reaches(bytes, 0, a), reaches(bytes, a, b)]
        reaches(bytes, 0, a) && reaches(bytes, a, b) && a != b && usable_at(bytes, a) && usable_at(
            bytes,
            b,
        ) ==> region_end(entry_at(bytes, a)) <= region_start(entry_at(bytes, b)) || region_end(
            entry_at(bytes, b),
        ) <= region_start(entry_at(bytes, a))
}

/// The allocator after one `allocate_frame`.
pub open spec fn alloc_next(m: FrameAllocatorModel) -> FrameAllocatorModel {
    FrameAllocatorModel { offset: walk_model(m).1, cursor: walk_model(m).2, ..m }
}

/// The allocator after `k` calls of `allocate_frame`.
pub open spec fn after_allocs(m: FrameAllocatorModel, k: nat) -> FrameAllocatorModel
    decreases k,
{
    if k == 0 {
        m
    } else {
        alloc_next(after_allocs(m, (k - 1) as nat))
    }
}

/// What the call numbered `k` (from 0) of `allocate_frame` returns.
pub open spec fn frame_at(m: FrameAllocatorModel, k: nat) -> Option<u32> {
    walk_model(after_allocs(m, k)).0
}

/// The allocator's position is on the walk from the start of the map, and a
/// cursor lies in the usable region it points into.
pub open spec fn position_ok(m: FrameAllocatorModel) -> bool {
    &&& m.offset >= 0
    &&& reaches(m.mmap, 0, m.offset)
    &&& m.cursor matches Some(cv) ==> usable_at(m.mmap, m.offset) && region_start(
        entry_at(m.mmap, m.offset),
    ) <= cv
}

proof fn lemma_reaches_le(bytes: Seq<u8>, a: int, b: int)
    requires
        reaches(bytes, a, b),
    ensures
        a <= b,
    decreases bytes.len() - a,
{
    if a != b && next_entry(bytes, a) < bytes.len() {
        lemma_reaches_le(bytes, next_entry(bytes, a), b);
    }
}

proof fn lemma_reaches_trans(bytes: Seq<u8>, a: int, b: int, c: int)
    requires
        reaches(bytes, a, b),
        reaches(bytes, b, c),
    ensures
        reaches(bytes, a, c),
    decreases bytes.len() - a,
{
    if a != b && a != c {
        let n = next_entry(bytes, a);
        if n >= bytes.len() {
            assert(b == n);
        } else {
            lemma_reaches_trans(bytes, n, b, c);
        }
    }
}

proof fn lemma_reaches_step(bytes: Seq<u8>, a: int)
    requires
        0 <= a < bytes.len(),
    ensures
        reaches(bytes, a, next_entry(bytes, a)),
{
    let n = next_entry(bytes, a);
    if n < bytes.len() {
        assert(reaches(bytes, n, n));
    }
}

/// What one allocation does, from a position on the walk: it moves along
/// the walk; a frame comes from the usable region where it stops, wholly
/// inside it and not below the cursor it started with there; no frame means
/// the walk ran off the map.
proof fn lemma_walk_facts(m: FrameAllocatorModel)
    requires
        position_ok(m),
        map_regions_ok(m.mmap),
        m.kernel_end <= u32::MAX - PAGE_SIZE,
    ensures
        reaches(m.mmap, m.offset, walk_model(m).1),
        position_ok(alloc_next(m)),
        walk_model(m).0 is None ==> walk_model(m).1 >= m.mmap.len(),
        walk_model(m).0 matches Some(c) ==> {
            let o = walk_model(m).1;
            &&& usable_at(m.mmap, o)
            &&& region_start(entry_at(m.mmap, o)) <= c
            &&& c + PAGE_SIZE <= region_end(entry_at(m.mmap, o))
            &&& c + PAGE_SIZE <= 0xFFFF_F000
            &&& walk_model(m).2 == Some((c + PAGE_SIZE) as u32)
            &&& (o == m.offset && m.cursor is Some) ==> c >= m.cursor.unwrap()
        },
    decreases m.mmap.len() - m.offset,
{
    let b = m.mmap;
    let off = m.offset;
    if off >= b.len() {
        assert(m.cursor is None);
        assert(alloc_next(m) == m);
    } else {
        let e = entry_at(b, off);
        let next = off + e.size + 4;
        let c = candidate_in(e, m.cursor, m.kernel_start, m.kernel_end);
        if region_usable(e) && candidate_fits(e, c) {
            assert(usable_at(b, off));
            assert(region_end(e) <= 0xFFFF_F000);
            let kea = kernel_end_aligned(m.kernel_end);
            let k = m.kernel_end as int;
            assert(k <= kea < k + 4096);
            let f = allocation_floor(e);
            let a = align_up_spec(f, PAGE_SIZE as int);
            assert(f <= a < f + 4096);
            let c0: u32 = match m.cursor {
                Some(cv) => cv,
                None => (a % 0x1_0000_0000) as u32,
            };
            assert(c >= c0);
            assert(c0 >= region_start(e));
            if c + PAGE_SIZE > u32::MAX {
                assert(sat_add_u32(c, PAGE_SIZE) == u32::MAX);
            }
            assert(c.wrapping_add(PAGE_SIZE) == c + PAGE_SIZE);
        } else if next >= b.len() {
            lemma_reaches_step(b, off);
            lemma_reaches_trans(b, 0, off, next);
        } else {
            lemma_reaches_step(b, off);
            lemma_reaches_trans(b, 0, off, next);
            let m2 = FrameAllocatorModel { offset: next, cursor: None, ..m };
            lemma_walk_facts(m2);
            lemma_reaches_trans(b, off, next, walk_model(m2).1);
            lemma_reaches_le(b, next, walk_model(m2).1);
        }
    }
}

proof fn lemma_runs_stay_on_walk(m: FrameAllocatorModel, k: nat)
    requires
        position_ok(m),
        map_regions_ok(m.mmap),
        m.kernel_end <= u32::MAX - PAGE_SIZE,
    ensures
        position_ok(after_allocs(m, k)),
        after_allocs(m, k).mmap == m.mmap,
        after_allocs(m, k).kernel_start == m.kernel_start,
        after_allocs(m, k).kernel_end == m.kernel_end,
    decreases k,
{
    if k > 0 {
        lemma_runs_stay_on_walk(m, (k - 1) as nat);
        lemma_walk_facts(after_allocs(m, (k - 1) as nat));
    }
}

/// After a frame `f` found at offset `o`, every later position is at or past
/// `o` on the walk, and still at `o` only with a cursor above `f`.
proof fn lemma_later_positions(m: FrameAllocatorModel, i: nat, l: nat)
    requires
        position_ok(m),
        map_regions_ok(m.mmap),
        m.kernel_end <= u32::MAX - PAGE_SIZE,
        frame_at(m, i) is Some,
        i < l,
    ensures
        ({
            let o = walk_model(after_allocs(m, i)).1;
            let p = after_allocs(m, l);
            &&& reaches(m.mmap, o, p.offset)
            &&& p.offset == o ==> (p.cursor is Some && p.cursor.unwrap() > frame_at(m, i).unwrap())
        }),
    decreases l - i,
{
    let o = walk_model(after_allocs(m, i)).1;
    let f = frame_at(m, i).unwrap();
    lemma_runs_stay_on_walk(m, i);
    lemma_walk_facts(after_allocs(m, i));
    if l == i + 1 {
        assert(after_allocs(m, l) == alloc_next(after_allocs(m, i)));
    } else {
        let l0 = (l - 1) as nat;
        lemma_later_positions(m, i, l0);
        let p = after_allocs(m, l0);
        lemma_runs_stay_on_walk(m, l0);
        lemma_walk_facts(p);
        assert(after_allocs(m, l) == alloc_next(p));
        let w = walk_model(p);
        lemma_reaches_trans(m.mmap, o, p.offset, w.1);
        if w.1 == o {
            lemma_reaches_le(m.mmap, o, p.offset);
            lemma_reaches_le(m.mmap, p.offset, w.1);
            assert(p.offset == o);
        }
    }
}

/// Once `allocate_frame` has returned `None`, it returns `None` ever after.
proof fn lemma_none_absorbs(m: FrameAllocatorModel, i: nat, j: nat)
    requires
        position_ok(m),
        map_regions_ok(m.mmap),
        m.kernel_end <= u32::MAX - PAGE_SIZE,
        frame_at(m, i) is None,
        i < j,
    ensures
        frame_at(m, j) is None,
        after_allocs(m, j).offset >= m.mmap.len(),
    decreases j - i,
{
    if j == i + 1 {
        lemma_runs_stay_on_walk(m, i);
        lemma_walk_facts(after_allocs(m, i));
    } else {
        let j0 = (j - 1) as nat;
        lemma_none_absorbs(m, i, j0);
        lemma_runs_stay_on_walk(m, j0);
    }
    lemma_runs_stay_on_walk(m, j);
}

/// Over any run of calls on a new allocator whose usable regions do not
/// overlap and end at or below 0xFFFFF000: no frame is handed out twice,
/// once a call returns `None` every later call does, every frame leaves
/// room for the cursor after it (as `allocate_frame` requires), and an
/// allocator without a memory map returns `None` from the first call.
pub proof fn law_frames_distinct_across_calls(m: FrameAllocatorModel, i: nat, j: nat)
    requires
        m.offset == 0,
        m.cursor is None,
        map_regions_ok(m.mmap),
        m.kernel_end <= u32::MAX - PAGE_SIZE,
        i < j,
    ensures
        frame_at(m, i) is None ==> frame_at(m, j) is None,
        frame_at(m, i) is Some && frame_at(m, j) is Some ==> frame_at(m, i).unwrap() != frame_at(
            m,
            j,
        ).unwrap(),
        frame_at(m, i) matches Some(a) ==> a + PAGE_SIZE <= u32::MAX,
        m.mmap.len() == 0 ==> frame_at(m, i) is None,
{
    let b = m.mmap;
    assert(reaches(b, 0, 0));
    assert(position_ok(m));
    lemma_runs_stay_on_walk(m, i);
    lemma_walk_facts(after_allocs(m, i));
    if frame_at(m, i) is None {
        lemma_none_absorbs(m, i, j);
    } else {
        if frame_at(m, j) is Some {
            let pi = after_allocs(m, i);
            let pj = after_allocs(m, j);
            let oi = walk_model(pi).1;
            let fi = frame_at(m, i).unwrap();
            lemma_later_positions(m, i, j);
            lemma_runs_stay_on_walk(m, j);
            lemma_walk_facts(pj);
            let oj = walk_model(pj).1;
            let fj = frame_at(m, j).unwrap();
            lemma_reaches_trans(b, oi, pj.offset, oj);
            if oj == oi {
                lemma_reaches_le(b, oi, pj.offset);
                lemma_reaches_le(b, pj.offset, oj);
                assert(pj.offset == oi);
                assert(pj.cursor.unwrap() > fi);
                assert(fj >= pj.cursor.unwrap());
            } else {
                lemma_reaches_trans(b, 0, pi.offset, oi);
                assert(reaches(b, 0, oi) && reaches(b, oi, oj));
                assert(usable_at(b, oi) && usable_at(b, oj));
                let ei = entry_at(b, oi);
                let ej = entry_at(b, oj);
                assert(region_end(ei) <= region_start(ej) || region_end(ej) <= region_start(ei));
                assert(region_start(ei) <= fi && fi + PAGE_SIZE <= region_end(ei));
                assert(region_start(ej) <= fj && fj + PAGE_SIZE <= region_end(ej));
            }
            assert(fi != fj);
        }
    }
    if b.len() == 0 {
        assert(after_allocs(m, i).offset >= 0);
    }
}

} // verus!
