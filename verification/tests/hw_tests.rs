use enos::allocator::{SimpleAllocator, HEAP_SIZE};
use enos::boot::{
    emit_mov_imm32, is_multiboot_magic, user_program_code, write_i32_le, write_u32_le,
    MultibootHeader, USER_LOOP_START, USER_MESSAGE, USER_MSG_ADDR,
};
use enos::fault::PageFaultInfo;
use enos::format::{format_bytes, format_duration_from_ticks, ticks_to_ms};
use enos::gdt::{GdtEntry, GdtPtr, GlobalDescriptorTable, TaskStateSegment};
use enos::idt::{IdtEntry, IdtPtr, InterruptDescriptorTable, INTERRUPT_GATE};
use enos::paging::{cr0_with_paging, PageDirectory, PageTable, TABLE_ENTRIES};
use enos::pic::{ack, ChainedPics};
use enos::pit::{configure, init_default, ticks_to_millis};
use enos::port::PortWrite;
use enos::serial::{serial_bytes, SerialPort};

fn w(port: u16, value: u8) -> PortWrite {
    PortWrite { port, value }
}

fn text(chars: Vec<char>) -> String {
    chars.into_iter().collect()
}

#[test]
fn gdt_flat_code_segment_bytes() {
    let e = GdtEntry::new(0, 0xFFFFF, 0x9A, 0xCF);
    assert_eq!(e.to_bytes(), [0xFF, 0xFF, 0x00, 0x00, 0x00, 0x9A, 0xCF, 0x00]);
    let tss = GdtEntry::new(0x0012_3456, 103, 0x89, 0x40);
    assert_eq!(tss.to_bytes(), [103, 0, 0x56, 0x34, 0x12, 0x89, 0x40, 0x00]);
    assert_eq!(GdtEntry::empty().to_bytes(), [0; 8]);
}

#[test]
fn kernel_gdt_layout() {
    let g = GlobalDescriptorTable::kernel_table(0x0020_0000, 103);
    assert_eq!(g.entries[0], GdtEntry::empty());
    assert_eq!(g.entries[1].access, 0x9A);
    assert_eq!(g.entries[2].access, 0x92);
    assert_eq!(g.entries[3].access, 0xFA);
    assert_eq!(g.entries[4].access, 0xF2);
    assert_eq!(g.entries[5], GdtEntry::new(0x0020_0000, 103, 0x89, 0x40));
    let p = GdtPtr::for_table(0x1000);
    assert_eq!(p.limit, 47);
    assert_eq!(p.base, 0x1000);
}

#[test]
fn tss_stack_setup() {
    let mut t = TaskStateSegment::new();
    assert_eq!(t.ss0, 0x10);
    assert_eq!(t.iopb, 104);
    assert_eq!(t.esp0, 0);
    t.set_interrupt_stack(0x0030_0000, 4096 * 5);
    assert_eq!(t.esp0, 0x0030_5000);
    assert_eq!(t.ss0, 0x10);
}

#[test]
fn idt_gates() {
    let mut e = IdtEntry::missing();
    assert_eq!(e.type_attr, 0);
    e.set_handler_raw(0x0010_2345, 0x08);
    assert_eq!(e.offset_low, 0x2345);
    assert_eq!(e.offset_high, 0x0010);
    assert_eq!(e.selector, 0x08);
    assert_eq!(e.zero, 0);
    assert_eq!(e.type_attr, INTERRUPT_GATE);

    let mut idt = InterruptDescriptorTable::new();
    idt.set_handler_ptr(0x80, 0xDEAD_BEEF, 0x08);
    assert_eq!(idt.entry(0x80), e_with(0xDEAD_BEEF));
    assert_eq!(idt.entry(0x81), IdtEntry::missing());
    assert_eq!(IdtPtr::for_table(0x5000).limit, 2047);
}

fn e_with(pointer: u32) -> IdtEntry {
    let mut e = IdtEntry::missing();
    e.set_handler_raw(pointer, 0x08);
    e
}

#[test]
fn page_tables_and_directory() {
    let k = PageTable::kernel_table();
    assert_eq!(k.entries.len(), TABLE_ENTRIES);
    assert_eq!(k.entries[0], 3);
    assert_eq!(k.entries[1], 0x1003);
    assert_eq!(k.entries[1023], 0x003F_F003);
    let u = PageTable::user_table();
    assert_eq!(u.entries[0], 0x0040_0007);
    assert_eq!(u.entries[1023], 0x007F_F007);
    let d = PageDirectory::new(0x0010_0000, 0x0010_1000);
    assert_eq!(d.entries.len(), TABLE_ENTRIES);
    assert_eq!(d.entries[0], 0x0010_0003);
    assert_eq!(d.entries[1], 0x0010_1007);
    assert!(d.entries[2..].iter().all(|&x| x == 0));
    assert_eq!(cr0_with_paging(0x11), 0x8000_0011);
}

#[test]
fn pic_initialisation_and_eoi() {
    let pics = ChainedPics::kernel_default();
    let init = pics.initialize();
    assert_eq!(init.len(), 18);
    assert_eq!(init[0], w(0x20, 0x11));
    assert_eq!(init[4], w(0x21, 32));
    assert_eq!(init[6], w(0xA1, 40));
    assert_eq!(init[16], w(0x21, 0));
    assert_eq!(init[17], w(0xA1, 0));
    assert!(pics.handles_interrupt(32));
    assert!(pics.handles_interrupt(47));
    assert!(!pics.handles_interrupt(48));
    assert!(!pics.handles_interrupt(31));
    assert_eq!(ack(&pics, 32), vec![w(0x20, 0x20)]);
    assert_eq!(ack(&pics, 44), vec![w(0xA0, 0x20), w(0x20, 0x20)]);
    assert!(ack(&pics, 0x80).is_empty());
}

#[test]
fn pit_divisors() {
    let d = init_default();
    assert_eq!(d.hz, 100);
    assert_eq!(d.divisor, 11931);
    assert_eq!(d.actual_hz, 100);
    assert_eq!(d.port_writes(), vec![w(0x43, 0x36), w(0x40, 0x9B), w(0x40, 0x2E)]);
    let zero = configure(0);
    assert_eq!(zero.hz, 100);
    assert_eq!(zero.divisor, 11931);
    let slow = configure(1);
    assert_eq!(slow.divisor, 65535);
    assert_eq!(slow.actual_hz, 18);
    let fast = configure(2_000_000);
    assert_eq!(fast.divisor, 1);
    assert_eq!(fast.actual_hz, 1_193_182);
}

#[test]
fn tick_conversions() {
    assert_eq!(ticks_to_millis(0), 0);
    assert_eq!(ticks_to_millis(1), 10);
    assert_eq!(ticks_to_millis(250), 2500);
    assert_eq!(ticks_to_millis(u64::MAX), u64::MAX / 100);
    assert_eq!(ticks_to_ms(7), 70);
    assert_eq!(format_duration_from_ticks(366_100), (1, 1, 1, 0));
    assert_eq!(format_duration_from_ticks(12_345), (0, 2, 3, 450));
}

#[test]
fn byte_counts() {
    assert_eq!(text(format_bytes(0)), "0 B");
    assert_eq!(text(format_bytes(512)), "512 B");
    assert_eq!(text(format_bytes(1536)), "~1.5 KB");
    assert_eq!(text(format_bytes(2048)), "~2.0 KB");
    assert_eq!(text(format_bytes(1024 * 1024 + 512 * 1024)), "~1.51 MB");
    assert_eq!(text(format_bytes(HEAP_SIZE)), "~1.0 MB");
}

#[test]
fn serial_setup_and_newlines() {
    let port = SerialPort::new(0x3F8);
    assert_eq!(
        port.init(),
        vec![
            w(0x3F9, 0x00),
            w(0x3FB, 0x80),
            w(0x3F8, 0x03),
            w(0x3F9, 0x00),
            w(0x3FB, 0x03),
            w(0x3FA, 0xC7),
            w(0x3FC, 0x0B),
        ]
    );
    assert!(SerialPort::is_transmit_empty(0x60));
    assert!(!SerialPort::is_transmit_empty(0x01));
    assert_eq!(serial_bytes("a\nb"), vec![b'a', 0x0D, 0x0A, b'b']);
    assert_eq!(serial_bytes(""), Vec::<u8>::new());
}

#[test]
fn multiboot_header_checksum() {
    let h = MultibootHeader::new();
    assert_eq!(h.magic, 0x1BAD_B002);
    assert_eq!(h.flags, 0);
    assert_eq!(h.checksum, 0xE452_4FFE);
    assert_eq!(h.magic.wrapping_add(h.flags).wrapping_add(h.checksum), 0);
    assert!(is_multiboot_magic(0x2BAD_B002));
    assert!(!is_multiboot_magic(0x1BAD_B002));
}

#[test]
fn little_endian_writers() {
    let mut buf = vec![0u8; 8];
    write_u32_le(&mut buf, 2, 0x1122_3344);
    assert_eq!(buf, vec![0, 0, 0x44, 0x33, 0x22, 0x11, 0, 0]);
    write_i32_le(&mut buf, 4, -2);
    assert_eq!(buf, vec![0, 0, 0x44, 0x33, 0xFE, 0xFF, 0xFF, 0xFF]);
    let mut code = vec![0u8; 6];
    let mut cursor = 1usize;
    emit_mov_imm32(&mut code, &mut cursor, 0xB8, 7);
    assert_eq!(cursor, 6);
    assert_eq!(code, vec![0, 0xB8, 7, 0, 0, 0]);
}

#[test]
fn user_program_bytes() {
    let code = user_program_code(USER_MSG_ADDR, USER_MESSAGE.len() as u32);
    assert_eq!(USER_MESSAGE.len(), 50);
    assert_eq!(
        code,
        vec![
            0xB8, 0x01, 0x00, 0x00, 0x00, // mov eax, 1
            0xBB, 0x00, 0x01, 0x40, 0x00, // mov ebx, msg
            0xB9, 0x32, 0x00, 0x00, 0x00, // mov ecx, 50
            0xCD, 0x80, // int 0x80
            0xB8, 0x03, 0x00, 0x00, 0x00, // mov eax, 3
            0xBB, 0x14, 0x00, 0x00, 0x00, // mov ebx, 20
            0xCD, 0x80, // int 0x80
            0xE9, 0xEF, 0xFF, 0xFF, 0xFF, // jmp loop
        ]
    );
    assert_eq!(code[USER_LOOP_START], 0xB8);
}

#[test]
fn heap_bump_allocation() {
    let heap = 0x1000usize;
    let mut a = SimpleAllocator::new();
    assert_eq!(a.allocate(heap, 10, 8), Some(0x1000));
    assert_eq!(a.allocate(heap, 4, 16), Some(0x1010));
    assert_eq!(a.allocate(heap, HEAP_SIZE, 1), None);
    assert_eq!(a.allocate(heap, HEAP_SIZE - 0x14, 1), Some(0x1014));
    assert_eq!(a.allocate(heap, 1, 1), None);
    assert_eq!(a.allocate(heap, 0, 1), Some(heap + HEAP_SIZE));
}

#[test]
fn page_fault_decoding() {
    let f = PageFaultInfo::decode(0b111);
    assert!(f.user && f.write && f.protection);
    assert_eq!(f.kind_label(), "protection");
    assert_eq!(f.access_label(), "write");
    let g = PageFaultInfo::decode(0);
    assert!(!g.user && !g.write && !g.protection);
    assert_eq!(g.kind_label(), "not-present");
    assert_eq!(g.access_label(), "read");
    assert_eq!(PageFaultInfo::decode(4), PageFaultInfo { user: true, write: false, protection: false });
}
