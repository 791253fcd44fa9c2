use vstd::prelude::*;
use vstd::utf8::{decode_utf8, valid_utf8};
use crate::task::{model_wf, sleep_spec, SchedulerModel, TaskManager};

verus! {

/// First address of the user page range.
pub const USER_PTR_MIN: u32 = 0x0040_0000;

/// End (exclusive) of the user page range.
pub const USER_PTR_MAX_EXCLUSIVE: u32 = 0x0080_0000;

/// Bytes of the user page range.
pub const USER_RANGE_LEN: usize = 0x0040_0000;

/// Longest text `SYS_PRINT` accepts.
pub const MAX_PRINT_LEN: usize = 1024;

pub const SYS_PRINT: u32 = 1;

pub const SYS_YIELD: u32 = 2;

pub const SYS_SLEEP: u32 = 3;

pub const ERR_INVALID_POINTER: u32 = 1;

pub const ERR_INVALID_LENGTH: u32 = 2;

pub const ERR_INVALID_UTF8: u32 = 3;

pub const ERR_INVALID_CONTEXT: u32 = 4;

pub const ERR_NOT_IMPLEMENTED: u32 = 0xFFFF_FFFF;

/// Whether a user buffer may be read: 1 to 1024 bytes lying wholly in the
/// user page range. The length is checked first.
pub open spec fn validate_spec(ptr: u32, len: usize) -> Result<(u32, usize), u32> {
    if len == 0 || len > MAX_PRINT_LEN {
        Err(ERR_INVALID_LENGTH)
    } else if ptr < USER_PTR_MIN {
        Err(ERR_INVALID_POINTER)
    } else if ptr + len > USER_PTR_MAX_EXCLUSIVE {
        Err(ERR_INVALID_POINTER)
    } else {
        Ok((ptr, len))
    }
}

pub fn validate_user_buffer(ptr: u32, len: usize) -> (r: Result<(u32, usize), u32>)
    ensures
        r == validate_spec(ptr, len),
{
    if len == 0 || len > MAX_PRINT_LEN {
        return Err(ERR_INVALID_LENGTH);
    }
    if ptr < USER_PTR_MIN {
        return Err(ERR_INVALID_POINTER);
    }
    let end = match ptr.checked_add(len as u32) {
        Some(v) => v,
        None => {
            return Err(ERR_INVALID_POINTER);
        },
    };
    if end > USER_PTR_MAX_EXCLUSIVE || end <= ptr {
        return Err(ERR_INVALID_POINTER);
    }
    Ok((ptr, len))
}

/// `core::str::from_utf8`, keeping the text: std documents that it succeeds
/// exactly when the bytes are well-formed UTF-8. The contract states that,
/// with `valid_utf8` for well-formedness, and that the text is the decoding
/// of the bytes.
#[verifier::external_body]
fn utf8_text(bytes: &[u8]) -> (r: Option<String>)
    ensures
        r is Some <==> valid_utf8(bytes@),
        r matches Some(s) ==> s@ == decode_utf8(bytes@),
{
    match core::str::from_utf8(bytes) {
        Ok(s) => Some(s.to_owned()),
        Err(_) => None,
    }
}

/// What a system call leaves to be logged.
pub enum SyscallLog {
    Nothing,
    /// `SYS_PRINT` printed this text.
    Printed(String),
    /// An unknown call number.
    Unknown(u32),
}

/// The status code a system call returns, and what it logs.
pub struct SyscallOutcome {
    pub status: u32,
    pub log: SyscallLog,
}

/// The status of a `SYS_PRINT` of the user bytes `mem` (the user page range)
/// at `ptr` of `len` bytes.
pub open spec fn print_status(mem: Seq<u8>, ptr: u32, len: usize) -> u32 {
    match validate_spec(ptr, len) {
        Err(code) => code,
        Ok(_) => {
            let start = ptr - USER_PTR_MIN;
            if valid_utf8(mem.subrange(start, start + len)) {
                0
            } else {
                ERR_INVALID_UTF8
            }
        },
    }
}

/// The scheduler state and status after a system call; the user page range
/// is `mem`.
pub open spec fn syscall_spec(
    m: SchedulerModel,
    mem: Seq<u8>,
    number: u32,
    arg1: u32,
    arg2: u32,
    esp: u32,
) -> (SchedulerModel, u32) {
    if number == SYS_PRINT {
        (m, print_status(mem, arg1, arg2 as usize))
    } else if number == SYS_YIELD || number == SYS_SLEEP {
        let ticks = if number == SYS_YIELD {
            1
        } else {
            arg1
        };
        let (m2, ok) = sleep_spec(m, esp, ticks);
        (m2, if ok {
            0
        } else {
            ERR_INVALID_CONTEXT
        })
    } else {
        (m, ERR_NOT_IMPLEMENTED)
    }
}

/// The system call gate (`int 0x80`): `SYS_PRINT(ptr, len)` prints a UTF-8
/// text from user memory, `SYS_YIELD` sleeps one tick, `SYS_SLEEP(ticks)`
/// sleeps; anything else is not implemented. `user_memory` is the user
/// page range, `current_esp` the caller's saved stack pointer.
pub fn syscall_dispatcher(
    scheduler: &mut TaskManager,
    user_memory: &[u8],
    syscall_number: u32,
    arg1: u32,
    arg2: u32,
    _arg3: u32,
    _arg4: u32,
    _arg5: u32,
    current_esp: u32,
) -> (out: SyscallOutcome)
    requires
        model_wf(old(scheduler)@),
        user_memory@.len() == USER_RANGE_LEN,
    ensures
        (final(scheduler)@, out.status) == syscall_spec(
            old(scheduler)@,
            user_memory@,
            syscall_number,
            arg1,
            arg2,
            current_esp,
        ),
        model_wf(final(scheduler)@),
        out.log matches SyscallLog::Printed(s) ==> syscall_number == SYS_PRINT && out.status == 0
            && s@ == decode_utf8(
            user_memory@.subrange(
                arg1 - USER_PTR_MIN,
                arg1 - USER_PTR_MIN + arg2,
            ),
        ),
        syscall_number == SYS_PRINT && out.status == 0 ==> out.log is Printed,
        out.log matches SyscallLog::Unknown(n) ==> n == syscall_number && out.status
            == ERR_NOT_IMPLEMENTED,
        syscall_number != SYS_PRINT && syscall_number != SYS_YIELD && syscall_number != SYS_SLEEP
            ==> out.log is Unknown,
{
    if syscall_number == SYS_PRINT {
        let (ptr, len) = match validate_user_buffer(arg1, arg2 as usize) {
            Ok(v) => v,
            Err(code) => {
                return SyscallOutcome { status: code, log: SyscallLog::Nothing };
            },
        };
        let start = (ptr - USER_PTR_MIN) as usize;
        let mut bytes: Vec<u8> = Vec::new();
        let mut i: usize = 0;
        while i < len
            invariant
                i <= len,
                start + len <= user_memory@.len(),
                user_memory@.len() == USER_RANGE_LEN,
                bytes@ == user_memory@.subrange(start as int, start + i),
            decreases len - i,
        {
            bytes.push(user_memory[start + i]);
            i += 1;
            assert(bytes@ =~= user_memory@.subrange(start as int, start + i));
        }
        match utf8_text(bytes.as_slice()) {
            Some(text) => SyscallOutcome { status: 0, log: SyscallLog::Printed(text) },
            None => SyscallOutcome { status: ERR_INVALID_UTF8, log: SyscallLog::Nothing },
        }
    } else if syscall_number == SYS_YIELD {
        let ok = scheduler.sleep_current_task(current_esp, 1);
        SyscallOutcome {
            status: if ok {
                0
            } else {
                ERR_INVALID_CONTEXT
            },
            log: SyscallLog::Nothing,
        }
    } else if syscall_number == SYS_SLEEP {
        let ok = scheduler.sleep_current_task(current_esp, arg1);
        SyscallOutcome {
            status: if ok {
                0
            } else {
                ERR_INVALID_CONTEXT
            },
            log: SyscallLog::Nothing,
        }
    } else {
        SyscallOutcome { status: ERR_NOT_IMPLEMENTED, log: SyscallLog::Unknown(syscall_number) }
    }
}


/// A buffer that passes validation lies wholly inside the user page range
/// and holds 1 to 1024 bytes, so a print reads user memory only.
pub proof fn law_valid_buffer_in_user_range(ptr: u32, len: usize)
    ensures
        validate_spec(ptr, len) is Ok ==> USER_PTR_MIN <= ptr && ptr + len <= USER_PTR_MAX_EXCLUSIVE
            && 1 <= len <= MAX_PRINT_LEN,
        validate_spec(ptr, len) is Ok ==> validate_spec(ptr, len) == Ok::<(u32, usize), u32>((ptr, len)),
{
}

} // verus!
