use enos::syscall::{
    syscall_dispatcher, validate_user_buffer, SyscallLog, ERR_INVALID_CONTEXT,
    ERR_INVALID_LENGTH, ERR_INVALID_POINTER, ERR_INVALID_UTF8, ERR_NOT_IMPLEMENTED, SYS_PRINT,
    SYS_SLEEP, SYS_YIELD, USER_RANGE_LEN,
};
use enos::task::TaskManager;

fn user_memory_with(offset: usize, bytes: &[u8]) -> Vec<u8> {
    let mut mem = vec![0u8; USER_RANGE_LEN];
    mem[offset..offset + bytes.len()].copy_from_slice(bytes);
    mem
}

/// A scheduler whose current task is the interrupted user thread.
fn user_running() -> TaskManager {
    let mut tm = TaskManager::new();
    tm.register_named_task("background_thread", 0x10000);
    tm.schedule_next(0x5000);
    tm.schedule_next(0x9000);
    assert_eq!(tm.stats().current_task_id, 1);
    tm
}

#[test]
fn buffer_validation() {
    assert_eq!(validate_user_buffer(0x0040_0000, 0), Err(ERR_INVALID_LENGTH));
    assert_eq!(validate_user_buffer(0x0040_0000, 1025), Err(ERR_INVALID_LENGTH));
    assert_eq!(validate_user_buffer(0x003F_FFFF, 4), Err(ERR_INVALID_POINTER));
    assert_eq!(validate_user_buffer(0x007F_FFFF, 2), Err(ERR_INVALID_POINTER));
    assert_eq!(validate_user_buffer(0xFFFF_FFFF, 2), Err(ERR_INVALID_POINTER));
    assert_eq!(validate_user_buffer(0x007F_FFFF, 1), Ok((0x007F_FFFF, 1)));
    assert_eq!(validate_user_buffer(0x0040_0100, 1024), Ok((0x0040_0100, 1024)));
    // the length is checked before the pointer
    assert_eq!(validate_user_buffer(0, 0), Err(ERR_INVALID_LENGTH));
}

#[test]
fn print_reads_user_text() {
    let mem = user_memory_with(0x100, b"hello ring 3");
    let mut tm = TaskManager::new();
    let out = syscall_dispatcher(&mut tm, &mem, SYS_PRINT, 0x0040_0100, 12, 0, 0, 0, 0);
    assert_eq!(out.status, 0);
    match out.log {
        SyscallLog::Printed(s) => assert_eq!(s, "hello ring 3"),
        _ => panic!("expected printed text"),
    }
}

#[test]
fn print_rejects_invalid_utf8() {
    let mem = user_memory_with(0x10, &[b'a', 0xFF, 0xFE]);
    let mut tm = TaskManager::new();
    let out = syscall_dispatcher(&mut tm, &mem, SYS_PRINT, 0x0040_0010, 3, 0, 0, 0, 0);
    assert_eq!(out.status, ERR_INVALID_UTF8);
    assert!(matches!(out.log, SyscallLog::Nothing));
}

#[test]
fn print_rejects_bad_buffers() {
    let mem = vec![0u8; USER_RANGE_LEN];
    let mut tm = TaskManager::new();
    let out = syscall_dispatcher(&mut tm, &mem, SYS_PRINT, 0x0010_0000, 4, 0, 0, 0, 0);
    assert_eq!(out.status, ERR_INVALID_POINTER);
    let out = syscall_dispatcher(&mut tm, &mem, SYS_PRINT, 0x0040_0000, 0, 0, 0, 0, 0);
    assert_eq!(out.status, ERR_INVALID_LENGTH);
    assert!(matches!(out.log, SyscallLog::Nothing));
}

#[test]
fn unknown_call_is_not_implemented() {
    let mem = vec![0u8; USER_RANGE_LEN];
    let mut tm = TaskManager::new();
    let out = syscall_dispatcher(&mut tm, &mem, 99, 0, 0, 0, 0, 0, 0);
    assert_eq!(out.status, ERR_NOT_IMPLEMENTED);
    assert!(matches!(out.log, SyscallLog::Unknown(99)));
}

#[test]
fn sleep_needs_a_user_task() {
    let mem = vec![0u8; USER_RANGE_LEN];
    // no tasks at all
    let mut empty = TaskManager::new();
    let out = syscall_dispatcher(&mut empty, &mem, SYS_SLEEP, 5, 0, 0, 0, 0, 0x1234);
    assert_eq!(out.status, ERR_INVALID_CONTEXT);
    // the kernel background task is running
    let mut tm = TaskManager::new();
    tm.register_named_task("background_thread", 0x10000);
    tm.schedule_next(0x5000);
    assert_eq!(tm.stats().current_task_id, 2);
    let out = syscall_dispatcher(&mut tm, &mem, SYS_YIELD, 0, 0, 0, 0, 0, 0x1234);
    assert_eq!(out.status, ERR_INVALID_CONTEXT);
}

#[test]
fn sleeping_user_task_yields_to_kernel() {
    let mem = vec![0u8; USER_RANGE_LEN];
    let mut tm = user_running();
    let out = syscall_dispatcher(&mut tm, &mem, SYS_SLEEP, 3, 0, 0, 0, 0, 0x4444);
    assert_eq!(out.status, 0);
    // the sleeping user thread is skipped until it wakes
    assert_eq!(tm.schedule_next(0x4444), 0x9000);
    assert_eq!(tm.stats().current_task_id, 2);
    tm.schedule_next(0x9100);
    assert_eq!(tm.stats().current_task_id, 2);
    // woken three ticks after it went to sleep, it resumes where it left off
    assert_eq!(tm.schedule_next(0x9200), 0x4444);
    assert_eq!(tm.stats().current_task_id, 1);
}

#[test]
fn yield_sleeps_one_tick() {
    let mem = vec![0u8; USER_RANGE_LEN];
    let mut tm = user_running();
    let out = syscall_dispatcher(&mut tm, &mem, SYS_YIELD, 0, 0, 0, 0, 0, 0x4000);
    assert_eq!(out.status, 0);
    assert_eq!(tm.schedule_next(0x4000), 0x9000);
    assert_eq!(tm.schedule_next(0x9100), 0x4000);
}
