use vstd::prelude::*;

verus! {

/// Bytes of a task state segment.
pub const TSS_SIZE: u32 = 104;

/// Number of descriptors in the kernel's GDT.
pub const GDT_ENTRIES: usize = 6;

pub const KERNEL_CODE_SELECTOR: u16 = 0x08;

pub const KERNEL_DATA_SELECTOR: u16 = 0x10;

pub const USER_CODE_SELECTOR: u16 = 0x1B;

pub const USER_DATA_SELECTOR: u16 = 0x23;

pub const TSS_SELECTOR: u16 = 0x28;

/// A segment descriptor, field by field as the CPU lays it out.
#[derive(Debug, Clone, Copy, PartialEq, Eq, Structural)]
pub struct GdtEntry {
    pub limit_low: u16,
    pub base_low: u16,
    pub base_middle: u8,
    pub access: u8,
    pub granularity: u8,
    pub base_high: u8,
}

/// The descriptor for a segment at `base` with a 20-bit `limit`, access
/// byte `access` and flags in the high nibble of `gran`.
pub open spec fn gdt_entry_spec(base: u32, limit: u32, access: u8, gran: u8) -> GdtEntry {
    GdtEntry {
        limit_low: (limit % 0x1_0000) as u16,
        base_low: (base % 0x1_0000) as u16,
        base_middle: ((base / 0x1_0000) % 0x100) as u8,
        access,
        granularity: ((limit / 0x1_0000) % 0x10 + (gran / 0x10) * 0x10) as u8,
        base_high: (base / 0x100_0000) as u8,
    }
}

impl GdtEntry {
    pub fn empty() -> (e: GdtEntry)
        ensures
            e == (GdtEntry {
                limit_low: 0,
                base_low: 0,
                base_middle: 0,
                access: 0,
                granularity: 0,
                base_high: 0,
            }),
    {
        GdtEntry { limit_low: 0, base_low: 0, base_middle: 0, access: 0, granularity: 0, base_high: 0 }
    }

    pub fn new(base: u32, limit: u32, access: u8, gran: u8) -> (e: GdtEntry)
        ensures
            e == gdt_entry_spec(base, limit, access, gran),
    {
        let limit_low = (limit & 0xFFFF) as u16;
        let base_low = (base & 0xFFFF) as u16;
        let base_middle = ((base >> 16) & 0xFF) as u8;
        let granularity = ((limit >> 16) & 0x0F) as u8 | (gran & 0xF0);
        let base_high = ((base >> 24) & 0xFF) as u8;
        assert(limit_low == limit % 0x1_0000) by (bit_vector)
            requires
                limit_low == (limit & 0xFFFF) as u16,
        ;
        assert(base_low == base % 0x1_0000) by (bit_vector)
            requires
                base_low == (base & 0xFFFF) as u16,
        ;
        assert(base_middle == (base / 0x1_0000) % 0x100) by (bit_vector)
            requires
                base_middle == ((base >> 16) & 0xFF) as u8,
        ;
        assert(granularity == (limit / 0x1_0000) % 0x10 + (gran / 0x10) * 0x10) by (bit_vector)
            requires
                granularity == ((limit >> 16) & 0x0F) as u8 | (gran & 0xF0),
        ;
        assert(base_high == base / 0x100_0000) by (bit_vector)
            requires
                base_high == ((base >> 24) & 0xFF) as u8,
        ;
        GdtEntry { limit_low, base_low, base_middle, access, granularity, base_high }
    }

    /// The eight bytes of the descriptor, in memory order.
    pub fn to_bytes(&self) -> (b: [u8; 8])
        ensures
            b@ == seq![
                (self.limit_low % 0x100) as u8,
                (self.limit_low / 0x100) as u8,
                (self.base_low % 0x100) as u8,
                (self.base_low / 0x100) as u8,
                self.base_middle,
                self.access,
                self.granularity,
                self.base_high,
            ],
    {
        let b = [
            (self.limit_low % 0x100) as u8,
            (self.limit_low / 0x100) as u8,
            (self.base_low % 0x100) as u8,
            (self.base_low / 0x100) as u8,
            self.base_middle,
            self.access,
            self.granularity,
            self.base_high,
        ];
        assert(b@ =~= seq![
            (self.limit_low % 0x100) as u8,
            (self.limit_low / 0x100) as u8,
            (self.base_low % 0x100) as u8,
            (self.base_low / 0x100) as u8,
            self.base_middle,
            self.access,
            self.granularity,
            self.base_high,
        ]);
        b
    }
}

/// Operand of `lgdt`: table size minus one and base address.
#[derive(Debug, Clone, Copy)]
pub struct GdtPtr {
    pub limit: u16,
    pub base: u32,
}

impl GdtPtr {
    /// The `lgdt` operand for the kernel's six-entry table at `base`.
    pub fn for_table(base: u32) -> (p: GdtPtr)
        ensures
            p.limit == 8 * GDT_ENTRIES - 1,
            p.base == base,
    {
        GdtPtr { limit: 47, base }
    }
}

/// The 32-bit task state segment; only the ring-0 stack (`esp0`, `ss0`) and
/// the I/O map base are used.
#[derive(Debug, Clone, Copy)]
pub struct TaskStateSegment {
    pub link: u16,
    pub res0: u16,
    pub esp0: u32,
    pub ss0: u16,
    pub res1: u16,
    pub esp1: u32,
    pub ss1: u16,
    pub res2: u16,
    pub esp2: u32,
    pub ss2: u16,
    pub res3: u16,
    pub cr3: u32,
    pub eip: u32,
    pub eflags: u32,
    pub eax: u32,
    pub ecx: u32,
    pub edx: u32,
    pub ebx: u32,
    pub esp: u32,
    pub ebp: u32,
    pub esi: u32,
    pub edi: u32,
    pub es: u16,
    pub res4: u16,
    pub cs: u16,
    pub res5: u16,
    pub ss: u16,
    pub res6: u16,
    pub ds: u16,
    pub res7: u16,
    pub fs: u16,
    pub res8: u16,
    pub gs: u16,
    pub res9: u16,
    pub ldtr: u16,
    pub res10: u16,
    pub iopb: u16,
    pub pad: u16,
}

impl TaskStateSegment {
    /// A TSS whose ring-0 stack segment is the kernel data segment and whose
    /// I/O map lies past its end; everything else is zero.
    pub fn new() -> (t: TaskStateSegment)
        ensures
            t.ss0 == KERNEL_DATA_SELECTOR,
            t.iopb == TSS_SIZE,
            t.esp0 == 0,
            t.link == 0 && t.esp1 == 0 && t.ss1 == 0 && t.esp2 == 0 && t.ss2 == 0 && t.cr3 == 0
                && t.eip == 0 && t.eflags == 0 && t.eax == 0 && t.ecx == 0 && t.edx == 0 && t.ebx
                == 0 && t.esp == 0 && t.ebp == 0 && t.esi == 0 && t.edi == 0 && t.es == 0 && t.cs
                == 0 && t.ss == 0 && t.ds == 0 && t.fs == 0 && t.gs == 0 && t.ldtr == 0,
            t.res0 == 0 && t.res1 == 0 && t.res2 == 0 && t.res3 == 0 && t.res4 == 0 && t.res5 == 0
                && t.res6 == 0 && t.res7 == 0 && t.res8 == 0 && t.res9 == 0 && t.res10 == 0 && t.pad
                == 0,
    {
        TaskStateSegment {
            link: 0,
            res0: 0,
            esp0: 0,
            ss0: 0x10,
            res1: 0,
            esp1: 0,
            ss1: 0,
            res2: 0,
            esp2: 0,
            ss2: 0,
            res3: 0,
            cr3: 0,
            eip: 0,
            eflags: 0,
            eax: 0,
            ecx: 0,
            edx: 0,
            ebx: 0,
            esp: 0,
            ebp: 0,
            esi: 0,
            edi: 0,
            es: 0,
            res4: 0,
            cs: 0,
            res5: 0,
            ss: 0,
            res6: 0,
            ds: 0,
            res7: 0,
            fs: 0,
            res8: 0,
            gs: 0,
            res9: 0,
            ldtr: 0,
            res10: 0,
            iopb: 104,
            pad: 0,
        }
    }

    /// Points the ring-0 stack at the top of a stack of `size` bytes at
    /// `base` (stacks grow down).
    pub fn set_interrupt_stack(&mut self, base: u32, size: u32)
        requires
            base + size <= u32::MAX,
        ensures
            *final(self) == (TaskStateSegment { esp0: (base + size) as u32, ..*old(self) }),
    {
        self.esp0 = base + size;
    }
}

/// The kernel's global descriptor table.
pub struct GlobalDescriptorTable {
    pub entries: [GdtEntry; 6],
}

/// Flat 4 GiB code/data segments: base 0, limit 0xFFFFF in 4 KiB units,
/// 32-bit.
pub open spec fn flat_segment(access: u8) -> GdtEntry {
    gdt_entry_spec(0, 0xFFFFF, access, 0xCF)
}

impl GlobalDescriptorTable {
    /// The kernel's table: null, kernel code (0x08), kernel data (0x10),
    /// user code (0x1B), user data (0x23) and the TSS (0x28) at `tss_base`
    /// with limit `tss_limit`.
    pub fn kernel_table(tss_base: u32, tss_limit: u32) -> (g: GlobalDescriptorTable)
        ensures
            g.entries@ == seq![
                GdtEntry {
                    limit_low: 0,
                    base_low: 0,
                    base_middle: 0,
                    access: 0,
                    granularity: 0,
                    base_high: 0,
                },
                flat_segment(0x9A),
                flat_segment(0x92),
                flat_segment(0xFA),
                flat_segment(0xF2),
                gdt_entry_spec(tss_base, tss_limit, 0x89, 0x40),
            ],
    {
        let g = GlobalDescriptorTable {
            entries: [
                GdtEntry::empty(),
                GdtEntry::new(0, 0xFFFFF, 0x9A, 0xCF),
                GdtEntry::new(0, 0xFFFFF, 0x92, 0xCF),
                GdtEntry::new(0, 0xFFFFF, 0xFA, 0xCF),
                GdtEntry::new(0, 0xFFFFF, 0xF2, 0xCF),
                GdtEntry::new(tss_base, tss_limit, 0x89, 0x40),
            ],
        };
        assert(g.entries@ =~= seq![
            GdtEntry {
                limit_low: 0,
                base_low: 0,
                base_middle: 0,
                access: 0,
                granularity: 0,
                base_high: 0,
            },
            flat_segment(0x9A),
            flat_segment(0x92),
            flat_segment(0xFA),
            flat_segment(0xF2),
            gdt_entry_spec(tss_base, tss_limit, 0x89, 0x40),
        ]);
        g
    }
}

// ---------------------------------------------------------------------------
// Laws of descriptor encoding

/// A descriptor gives back the base address and 20-bit limit it was built
/// from, and the flag nibble of `gran`.
pub proof fn law_descriptor_round_trip(base: u32, limit: u32, access: u8, gran: u8)
    ensures
        ({
            let e = gdt_entry_spec(base, limit, access, gran);
            &&& e.base_low + e.base_middle * 0x1_0000 + e.base_high * 0x100_0000 == base
            &&& e.limit_low + (e.granularity % 0x10) * 0x1_0000 == limit % 0x10_0000
            &&& e.granularity / 0x10 == gran / 0x10
            &&& e.access == access
        }),
{
    let b = base as int;
    let l = limit as int;
    assert(b % 0x1_0000 + ((b / 0x1_0000) % 0x100) * 0x1_0000 + (b / 0x100_0000) * 0x100_0000 == b)
        by (nonlinear_arith)
        requires
            0 <= b < 0x1_0000_0000,
    ;
    assert(l % 0x1_0000 + ((l / 0x1_0000) % 0x10) * 0x1_0000 == l % 0x10_0000) by (nonlinear_arith)
        requires
            0 <= l,
    ;
    let g = gran as int;
    assert((((l / 0x1_0000) % 0x10 + (g / 0x10) * 0x10) % 0x10) == (l / 0x1_0000) % 0x10 && ((
    l / 0x1_0000) % 0x10 + (g / 0x10) * 0x10) / 0x10 == g / 0x10) by (nonlinear_arith)
        requires
            0 <= l,
            0 <= g < 0x100,
    ;
}

/// Descriptor privilege level of an access byte.
pub open spec fn dpl(access: u8) -> int {
    (access as int / 0x20) % 4
}

/// The kernel segments are ring 0, the user segments ring 3, and all four
/// flat segments are present.
pub proof fn law_segment_privileges()
    ensures
        dpl(flat_segment(0x9A).access) == 0,
        dpl(flat_segment(0x92).access) == 0,
        dpl(flat_segment(0xFA).access) == 3,
        dpl(flat_segment(0xF2).access) == 3,
        flat_segment(0x9A).access >= 0x80 && flat_segment(0x92).access >= 0x80 && flat_segment(
            0xFA,
        ).access >= 0x80 && flat_segment(0xF2).access >= 0x80,
        (USER_CODE_SELECTOR as int) % 4 == 3 && (USER_CODE_SELECTOR as int) / 8 == 3,
        (USER_DATA_SELECTOR as int) % 4 == 3 && (USER_DATA_SELECTOR as int) / 8 == 4,
        (KERNEL_CODE_SELECTOR as int) / 8 == 1 && (KERNEL_DATA_SELECTOR as int) / 8 == 2,
        (TSS_SELECTOR as int) / 8 == 5,
{
}

} // verus!
