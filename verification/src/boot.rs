use vstd::prelude::*;

verus! {

/// Magic number of the multiboot header in the kernel image.
pub const MULTIBOOT_HEADER_MAGIC: u32 = 0x1BAD_B002;

/// Magic number a multiboot boot loader passes to the kernel.
pub const MULTIBOOT_BOOTLOADER_MAGIC: u32 = 0x2BAD_B002;

/// Where the user program's code is placed.
pub const USER_CODE_ADDR: u32 = 0x0040_0000;

/// Where the user program's message is placed.
pub const USER_MSG_ADDR: u32 = 0x0040_0100;

/// Top of the user program's stack.
pub const USER_STACK_TOP: u32 = 0x0080_0000;

/// Ticks the user program sleeps between messages.
pub const USER_SLEEP_TICKS: u32 = 20;

/// The message the user program prints.
pub const USER_MESSAGE: &'static str = "Ring 3 online via isolated user pages + sys_sleep.";

/// The multiboot header: magic, flags and a checksum that makes the three
/// sum to zero.
#[derive(Debug, Clone, Copy)]
pub struct MultibootHeader {
    pub magic: u32,
    pub flags: u32,
    pub checksum: u32,
}

impl MultibootHeader {
    pub fn new() -> (h: MultibootHeader)
        ensures
            h.magic == MULTIBOOT_HEADER_MAGIC,
            h.flags == 0,
            (h.magic + h.flags + h.checksum) % 0x1_0000_0000 == 0,
    {
        let magic: u32 = MULTIBOOT_HEADER_MAGIC;
        let flags: u32 = 0;
        let checksum = 0u32.wrapping_sub(magic).wrapping_sub(flags);
        MultibootHeader { magic, flags, checksum }
    }
}

/// Whether the kernel was started by a multiboot boot loader.
pub fn is_multiboot_magic(magic: u32) -> (r: bool)
    ensures
        r == (magic == MULTIBOOT_BOOTLOADER_MAGIC),
{
    magic == MULTIBOOT_BOOTLOADER_MAGIC
}

/// Little-endian bytes of a 32-bit value.
pub open spec fn le_bytes(value: u32) -> Seq<u8> {
    seq![
        (value % 0x100) as u8,
        ((value / 0x100) % 0x100) as u8,
        ((value / 0x1_0000) % 0x100) as u8,
        (value / 0x100_0000) as u8,
    ]
}

/// `buf` with `bytes` written at `offset`.
pub open spec fn written(buf: Seq<u8>, offset: int, bytes: Seq<u8>) -> Seq<u8> {
    Seq::new(
        buf.len(),
        |i: int|
            if offset <= i < offset + bytes.len() {
                bytes[i - offset]
            } else {
                buf[i]
            },
    )
}

pub fn write_u32_le(buf: &mut Vec<u8>, offset: usize, value: u32)
    requires
        offset + 4 <= old(buf)@.len(),
    ensures
        final(buf)@ == written(old(buf)@, offset as int, le_bytes(value)),
{
    let _n = buf.len();
    let b0 = (value & 0xFF) as u8;
    let b1 = ((value >> 8) & 0xFF) as u8;
    let b2 = ((value >> 16) & 0xFF) as u8;
    let b3 = ((value >> 24) & 0xFF) as u8;
    assert(b0 == value % 0x100 && b1 == (value / 0x100) % 0x100 && b2 == (value / 0x1_0000) % 0x100
        && b3 == value / 0x100_0000) by (bit_vector)
        requires
            b0 == (value & 0xFF) as u8,
            b1 == ((value >> 8) & 0xFF) as u8,
            b2 == ((value >> 16) & 0xFF) as u8,
            b3 == ((value >> 24) & 0xFF) as u8,
    ;
    buf.set(offset, b0);
    buf.set(offset + 1, b1);
    buf.set(offset + 2, b2);
    buf.set(offset + 3, b3);
    assert(buf@ =~= written(old(buf)@, offset as int, le_bytes(value)));
}

/// Two's-complement little-endian bytes of a 32-bit signed value.
pub fn write_i32_le(buf: &mut Vec<u8>, offset: usize, value: i32)
    requires
        offset + 4 <= old(buf)@.len(),
    ensures
        final(buf)@ == written(old(buf)@, offset as int, le_bytes(value as u32)),
{
    write_u32_le(buf, offset, value as u32);
}

/// Emits `opcode imm32` (a `mov reg, imm32`) at `*cursor` and moves the
/// cursor past it.
pub fn emit_mov_imm32(code: &mut Vec<u8>, cursor: &mut usize, opcode: u8, imm: u32)
    requires
        *old(cursor) + 5 <= old(code)@.len(),
    ensures
        *final(cursor) == *old(cursor) + 5,
        final(code)@ == written(old(code)@, *old(cursor) as int, seq![opcode] + le_bytes(imm)),
{
    let _n = code.len();
    let at = *cursor;
    code.set(at, opcode);
    *cursor = at + 1;
    write_u32_le(code, at + 1, imm);
    *cursor = at + 5;
    assert(code@ =~= written(old(code)@, at as int, seq![opcode] + le_bytes(imm)));
}

/// The ring-3 demo program, placed at `USER_CODE_ADDR`:
///
/// ```text
///   mov eax, 1 ; mov ebx, msg ; mov ecx, len ; int 0x80   (SYS_PRINT)
/// loop:
///   mov eax, 3 ; mov ebx, 20 ; int 0x80                   (SYS_SLEEP)
///   jmp loop
/// ```
pub open spec fn user_program_spec(msg_addr: u32, msg_len: u32) -> Seq<u8> {
    seq![0xB8u8] + le_bytes(1) + seq![0xBBu8] + le_bytes(msg_addr) + seq![0xB9u8] + le_bytes(msg_len)
        + seq![0xCDu8, 0x80u8] + seq![0xB8u8] + le_bytes(3) + seq![0xBBu8] + le_bytes(USER_SLEEP_TICKS)
        + seq![0xCDu8, 0x80u8] + seq![0xE9u8] + le_bytes((-17i32) as u32)
}

/// Offset of the loop in the user program.
pub const USER_LOOP_START: usize = 17;

/// The user program's code for a message of `msg_len` bytes at `msg_addr`.
pub fn user_program_code(msg_addr: u32, msg_len: u32) -> (code: Vec<u8>)
    ensures
        code@ == user_program_spec(msg_addr, msg_len),
{
    let mut code: Vec<u8> = Vec::new();
    let mut k: usize = 0;
    while k < 64
        invariant
            k <= 64,
            code@.len() == k,
        decreases 64 - k,
    {
        code.push(0);
        k += 1;
    }
    let mut i: usize = 0;
    let ghost c0 = code@;
    emit_mov_imm32(&mut code, &mut i, 0xB8, 1);
    emit_mov_imm32(&mut code, &mut i, 0xBB, msg_addr);
    emit_mov_imm32(&mut code, &mut i, 0xB9, msg_len);
    code.set(i, 0xCD);
    code.set(i + 1, 0x80);
    i += 2;
    let loop_start = i;
    emit_mov_imm32(&mut code, &mut i, 0xB8, 3);
    emit_mov_imm32(&mut code, &mut i, 0xBB, USER_SLEEP_TICKS);
    code.set(i, 0xCD);
    code.set(i + 1, 0x80);
    i += 2;
    code.set(i, 0xE9);
    let next_ip: i64 = USER_CODE_ADDR as i64 + i as i64 + 5;
    let target_ip: i64 = USER_CODE_ADDR as i64 + loop_start as i64;
    let rel = (target_ip - next_ip) as i32;
    assert(rel == -17i32);
    write_i32_le(&mut code, i + 1, rel);
    i += 5;
    code.truncate(i);
    assert(code@ =~= user_program_spec(msg_addr, msg_len));
    code
}

/// The program's final jump lands on its loop: the jump's displacement,
/// counted from the end of the program, reaches `USER_LOOP_START`.
pub proof fn law_user_program_loops(msg_addr: u32, msg_len: u32)
    ensures
        user_program_spec(msg_addr, msg_len).len() == 34,
        user_program_spec(msg_addr, msg_len)[USER_LOOP_START as int] == 0xB8,
        user_program_spec(msg_addr, msg_len)[USER_LOOP_START as int + 1] == 3,
        34 + (-17) == USER_LOOP_START,
{
}

} // verus!
