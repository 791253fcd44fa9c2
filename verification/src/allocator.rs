use vstd::prelude::*;

verus! {

/// Size of the kernel heap.
pub const HEAP_SIZE: usize = 1024 * 1024;

/// The kernel heap's bump allocator: allocations are carved upward from the
/// start of the heap and never reclaimed. `offset` is how much is in use.
pub struct SimpleAllocator {
    offset: usize,
}

impl View for SimpleAllocator {
    type V = int;

    closed spec fn view(&self) -> int {
        self.offset as int
    }
}

/// Where an allocation of `size` bytes aligned to `align` goes in a heap at
/// `heap_start` whose first `offset` bytes are in use: the next aligned
/// address, if the allocation still fits; and the new offset.
pub open spec fn bump_spec(heap_start: int, offset: int, size: int, align: int) -> Option<(int, int)> {
    let cursor = heap_start + offset;
    let start = if cursor % align == 0 {
        cursor
    } else {
        cursor + align - cursor % align
    };
    if start + size > heap_start + HEAP_SIZE {
        None
    } else {
        Some((start, start + size - heap_start))
    }
}

impl SimpleAllocator {
    pub fn new() -> (a: SimpleAllocator)
        ensures
            a@ == 0,
    {
        SimpleAllocator { offset: 0 }
    }

    /// Allocates `size` bytes aligned to `align` (a power of two, as layouts
    /// have) in the heap at `heap_start`. `None` when the heap is exhausted.
    pub fn allocate(&mut self, heap_start: usize, size: usize, align: usize) -> (r: Option<usize>)
        requires
            0 <= old(self)@ <= HEAP_SIZE,
            align > 0,
            heap_start + HEAP_SIZE + align <= usize::MAX,
        ensures
            0 <= final(self)@ <= HEAP_SIZE,
            match bump_spec(heap_start as int, old(self)@, size as int, align as int) {
                Some((start, new_offset)) => r == Some(start as usize) && final(self)@ == new_offset,
                None => r is None && final(self)@ == old(self)@,
            },
    {
        let alloc_start = heap_start + self.offset;
        let remainder = alloc_start % align;
        let start_addr = if remainder == 0 {
            alloc_start
        } else {
            alloc_start + align - remainder
        };
        let alloc_end = start_addr.checked_add(size);
        match alloc_end {
            Some(end) => {
                let heap_end = heap_start + HEAP_SIZE;
                if end > heap_end {
                    None
                } else {
                    self.offset = end - heap_start;
                    Some(start_addr)
                }
            },
            None => None,
        }
    }
}

/// Heap usage, as `meminfo` shows it.
#[derive(Debug, Clone, Copy)]
pub struct HeapStats {
    pub used_bytes: usize,
    pub free_bytes: usize,
    pub total_bytes: usize,
    /// Whole percent of the heap in use.
    pub used_percent: usize,
}

impl SimpleAllocator {
    /// How much of the heap is handed out: the bump offset, the rest, the
    /// heap size and the share in use.
    pub fn heap_stats(&self) -> (st: HeapStats)
        requires
            0 <= self@ <= HEAP_SIZE,
        ensures
            st.used_bytes == self@,
            st.free_bytes == HEAP_SIZE - self@,
            st.total_bytes == HEAP_SIZE,
            st.used_percent == self@ * 100 / (HEAP_SIZE as int),
    {
        let used = self.offset;
        HeapStats {
            used_bytes: used,
            free_bytes: HEAP_SIZE - used,
            total_bytes: HEAP_SIZE,
            used_percent: used * 100 / HEAP_SIZE,
        }
    }
}

/// Memory is handed out at most once: an allocation lies wholly inside the
/// heap, above everything handed out before, at an aligned address.
pub proof fn law_bump_disjoint(heap_start: int, offset: int, size: int, align: int)
    requires
        0 <= offset <= HEAP_SIZE,
        align > 0,
        heap_start >= 0,
        size >= 0,
    ensures
        bump_spec(heap_start, offset, size, align) matches Some((start, new_offset)) ==> start
            >= heap_start + offset && start % align == 0 && start + size <= heap_start + HEAP_SIZE
            && new_offset == start + size - heap_start && new_offset >= offset,
{
    let cursor = heap_start + offset;
    if cursor % align != 0 {
        assert((cursor + align - cursor % align) % align == 0) by (nonlinear_arith)
            requires
                align > 0,
                cursor >= 0,
        ;
    }
}

} // verus!
