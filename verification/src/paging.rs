use vstd::prelude::*;

verus! {

pub const PAGE_PRESENT: u32 = 0x01;

pub const PAGE_RW: u32 = 0x02;

pub const PAGE_USER: u32 = 0x04;

/// Entries in a page table or page directory.
pub const TABLE_ENTRIES: usize = 1024;

/// Physical start of the user page range (the second 4 MiB).
pub const USER_REGION_BASE: u32 = 0x0040_0000;

/// A page table: 1024 entries, each mapping 4 KiB.
pub struct PageTable {
    pub entries: Vec<u32>,
}

/// A page directory: 1024 entries, each naming a page table.
pub struct PageDirectory {
    pub entries: Vec<u32>,
}

/// Entry `i` of a table that maps 4 MiB from `base` with `flags`.
pub open spec fn mapping_entry(base: u32, i: int, flags: u32) -> u32 {
    ((base + i * 4096) as u32) | flags
}

/// Kernel pages: present and writable, supervisor only.
pub open spec fn kernel_flags() -> u32 {
    PAGE_PRESENT | PAGE_RW
}

/// User pages: present, writable and user-accessible.
pub open spec fn user_flags() -> u32 {
    PAGE_PRESENT | PAGE_RW | PAGE_USER
}

fn kernel_page_flags() -> (f: u32)
    ensures
        f == kernel_flags(),
{
    PAGE_PRESENT | PAGE_RW
}

fn user_page_flags() -> (f: u32)
    ensures
        f == user_flags(),
{
    PAGE_PRESENT | PAGE_RW | PAGE_USER
}

impl PageTable {
    /// A table mapping the 4 MiB starting at `base` (page aligned, below
    /// 4 GiB - 4 MiB) one to one, every entry carrying `flags`.
    pub fn linear(base: u32, flags: u32) -> (t: PageTable)
        requires
            base as int + TABLE_ENTRIES * 4096 <= u32::MAX + 1,
        ensures
            t.entries@.len() == TABLE_ENTRIES,
            forall|i: int|
                0 <= i < TABLE_ENTRIES ==> #[trigger] t.entries@[i] == mapping_entry(base, i, flags),
    {
        let mut entries: Vec<u32> = Vec::new();
        let mut i: usize = 0;
        while i < TABLE_ENTRIES
            invariant
                i <= TABLE_ENTRIES,
                base as int + TABLE_ENTRIES * 4096 <= u32::MAX + 1,
                entries@.len() == i,
                forall|k: int| 0 <= k < i ==> #[trigger] entries@[k] == mapping_entry(base, k, flags),
            decreases TABLE_ENTRIES - i,
        {
            let phys_addr = base + (i as u32) * 4096;
            entries.push(phys_addr | flags);
            i += 1;
        }
        PageTable { entries }
    }

    /// The kernel's table: the first 4 MiB, identity-mapped, supervisor only.
    pub fn kernel_table() -> (t: PageTable)
        ensures
            t.entries@.len() == TABLE_ENTRIES,
            forall|i: int|
                0 <= i < TABLE_ENTRIES ==> #[trigger] t.entries@[i] == mapping_entry(
                    0,
                    i,
                    kernel_flags(),
                ),
    {
        Self::linear(0, kernel_page_flags())
    }

    /// The user table: the second 4 MiB, identity-mapped, user accessible.
    pub fn user_table() -> (t: PageTable)
        ensures
            t.entries@.len() == TABLE_ENTRIES,
            forall|i: int|
                0 <= i < TABLE_ENTRIES ==> #[trigger] t.entries@[i] == mapping_entry(
                    USER_REGION_BASE,
                    i,
                    user_flags(),
                ),
    {
        Self::linear(USER_REGION_BASE, user_page_flags())
    }
}

impl PageDirectory {
    /// The directory that maps the kernel table (at physical `kernel_pt`)
    /// for the first 4 MiB and the user table (at `user_pt`) for the second;
    /// every other entry is absent.
    pub fn new(kernel_pt: u32, user_pt: u32) -> (d: PageDirectory)
        ensures
            d.entries@.len() == TABLE_ENTRIES,
            d.entries@[0] == kernel_pt | kernel_flags(),
            d.entries@[1] == user_pt | user_flags(),
            forall|i: int| 2 <= i < TABLE_ENTRIES ==> #[trigger] d.entries@[i] == 0,
    {
        let mut entries: Vec<u32> = Vec::new();
        entries.push(kernel_pt | kernel_page_flags());
        entries.push(user_pt | user_page_flags());
        let mut i: usize = 2;
        while i < TABLE_ENTRIES
            invariant
                2 <= i <= TABLE_ENTRIES,
                entries@.len() == i,
                entries@[0] == kernel_pt | kernel_flags(),
                entries@[1] == user_pt | user_flags(),
                forall|k: int| 2 <= k < i ==> #[trigger] entries@[k] == 0,
            decreases TABLE_ENTRIES - i,
        {
            entries.push(0);
            i += 1;
        }
        PageDirectory { entries }
    }
}

/// CR0 with the paging bit set.
pub fn cr0_with_paging(cr0: u32) -> (r: u32)
    ensures
        r == cr0 | 0x8000_0000,
{
    cr0 | 0x8000_0000
}

// ---------------------------------------------------------------------------
// Laws of the page tables

/// Every entry of a linear table maps its page one to one: the frame it
/// names is `base + 4096 * i` and its flag bits are `flags`.
pub proof fn law_linear_entries_map_identity(base: u32, i: int, flags: u32)
    requires
        base % 4096 == 0,
        0 <= i < TABLE_ENTRIES,
        base as int + TABLE_ENTRIES * 4096 <= u32::MAX + 1,
        flags < 4096,
    ensures
        mapping_entry(base, i, flags) & 0xFFFF_F000 == base + i * 4096,
        mapping_entry(base, i, flags) & 0xFFF == flags,
{
    let x = (base + i * 4096) as u32;
    assert(x % 4096 == 0) by (nonlinear_arith)
        requires
            x == base + i * 4096,
            base % 4096 == 0,
    ;
    assert((x | flags) & 0xFFFF_F000 == x && (x | flags) & 0xFFF == flags) by (bit_vector)
        requires
            x % 4096 == 0,
            flags < 4096,
    ;
}

/// Kernel pages are supervisor-only and user pages user-accessible; both
/// are present and writable.
pub proof fn law_kernel_pages_supervisor_only(i: int)
    requires
        0 <= i < TABLE_ENTRIES,
    ensures
        mapping_entry(0, i, kernel_flags()) & PAGE_USER == 0,
        mapping_entry(0, i, kernel_flags()) & PAGE_PRESENT != 0,
        mapping_entry(0, i, kernel_flags()) & PAGE_RW != 0,
        mapping_entry(USER_REGION_BASE, i, user_flags()) & PAGE_USER != 0,
        mapping_entry(USER_REGION_BASE, i, user_flags()) & PAGE_PRESENT != 0,
        mapping_entry(USER_REGION_BASE, i, user_flags()) & PAGE_RW != 0,
{
    let x = (0 + i * 4096) as u32;
    let y = (USER_REGION_BASE + i * 4096) as u32;
    assert(x % 4096 == 0 && y % 4096 == 0) by (nonlinear_arith)
        requires
            x == i * 4096,
            y == 0x40_0000 + i * 4096,
    ;
    assert(kernel_flags() == 3 && user_flags() == 7) by (bit_vector);
    assert((x | 3u32) & 4 == 0 && (x | 3u32) & 1 != 0 && (x | 3u32) & 2 != 0) by (bit_vector)
        requires
            x % 4096 == 0,
    ;
    assert((y | 7u32) & 4 != 0 && (y | 7u32) & 1 != 0 && (y | 7u32) & 2 != 0) by (bit_vector);
}

} // verus!
