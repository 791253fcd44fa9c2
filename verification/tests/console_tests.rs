use enos::allocator::{SimpleAllocator, HEAP_SIZE};
use enos::console::{evaluate_command, type_char, type_scancode, Reply};
use enos::format::cpu_percent;
use enos::fs::{create_file, list_files, sort_by_name, write_file, FileInfo, FileSystem};
use enos::shell::{push_char, SessionUser, Shell};
use enos::task::{KillTaskResult, TaskManager};
use enos::text::{char_byte_len, string_from_chars, text_byte_len};

struct Kernel {
    shell: Shell,
    fs: FileSystem,
    tasks: TaskManager,
}

impl Kernel {
    fn new() -> Kernel {
        Kernel { shell: Shell::new(), fs: FileSystem::new(), tasks: TaskManager::new() }
    }

    /// Types `line` and presses enter.
    fn run(&mut self, line: &str) -> Reply {
        for c in line.chars() {
            push_char(&mut self.shell, c);
        }
        let out = push_char(&mut self.shell, '\n');
        assert!(out.submitted);
        evaluate_command(&mut self.shell, &mut self.fs, &mut self.tasks)
    }
}

fn usage(r: Reply) -> &'static str {
    match r {
        Reply::Usage(u) => u,
        _ => panic!("expected a usage line"),
    }
}

#[test]
fn empty_line_does_nothing() {
    let mut k = Kernel::new();
    assert!(matches!(k.run("   "), Reply::Nothing));
    assert!(matches!(k.run(""), Reply::Nothing));
}

#[test]
fn echo_and_usage() {
    let mut k = Kernel::new();
    match k.run("  echo   hello  world  ") {
        Reply::Echo(s) => assert_eq!(s, "hello  world"),
        _ => panic!("expected echo"),
    }
    assert_eq!(usage(k.run("echo")), "echo <msg>");
    assert_eq!(usage(k.run("calc")), "calc <expression>");
    assert_eq!(usage(k.run("kill")), "kill <pid>");
    assert_eq!(usage(k.run("touch")), "touch <file>");
    assert_eq!(usage(k.run("rm")), "rm <file>");
    assert_eq!(usage(k.run("cat")), "cat <file>");
    assert_eq!(usage(k.run("write a")), "write <file> <text>");
    assert_eq!(usage(k.run("login")), "login <enos|guest>");
}

#[test]
fn calc_results() {
    let mut k = Kernel::new();
    assert!(matches!(k.run("calc 2 + 3 * (4 - 1)"), Reply::Calc(Ok(11))));
    assert!(matches!(k.run("calc 7 / 0"), Reply::Calc(Err("division by zero"))));
    assert!(matches!(k.run("calc 1 +"), Reply::Calc(Err("expected number"))));
}

#[test]
fn unknown_command_reports_the_line() {
    let mut k = Kernel::new();
    match k.run("frobnicate now") {
        Reply::NotFound(s) => assert_eq!(s, "frobnicate now"),
        _ => panic!("expected not found"),
    }
    assert!(matches!(k.run("help"), Reply::Help));
    assert!(matches!(k.run("about"), Reply::About));
    assert!(matches!(k.run("clear"), Reply::ClearScreen));
}

#[test]
fn files_through_the_shell() {
    let mut k = Kernel::new();
    match k.run("touch notes.txt") {
        Reply::Touched(name, r) => {
            assert_eq!(name, "notes.txt");
            assert_eq!(r, Ok(()));
        }
        _ => panic!("expected touch"),
    }
    match k.run("touch notes.txt") {
        Reply::Touched(_, r) => assert_eq!(r, Err("file already exists")),
        _ => panic!("expected touch"),
    }
    match k.run("touch bad/name") {
        Reply::Touched(_, r) => assert_eq!(r, Err("invalid file name")),
        _ => panic!("expected touch"),
    }
    match k.run("write notes.txt   hello there") {
        Reply::Wrote(name, r) => {
            assert_eq!(name, "notes.txt");
            assert_eq!(r, Ok(()));
        }
        _ => panic!("expected write"),
    }
    match k.run("cat notes.txt") {
        Reply::Cat(Ok(s)) => assert_eq!(s, "hello there"),
        _ => panic!("expected contents"),
    }
    match k.run("cat missing") {
        Reply::Cat(r) => assert_eq!(r, Err("file not found")),
        _ => panic!("expected cat"),
    }
    match k.run("fsinfo") {
        Reply::Fsinfo(st) => {
            assert_eq!(st.file_count, 1);
            assert_eq!(st.total_bytes, 11);
        }
        _ => panic!("expected fsinfo"),
    }
    match k.run("rm notes.txt") {
        Reply::Removed(name, r) => {
            assert_eq!(name, "notes.txt");
            assert_eq!(r, Ok(()));
        }
        _ => panic!("expected rm"),
    }
    match k.run("meminfo") {
        Reply::Meminfo(st) => assert_eq!(st.file_count, 0),
        _ => panic!("expected meminfo"),
    }
}

#[test]
fn ls_sorts_by_name() {
    let mut k = Kernel::new();
    assert!(matches!(k.run("ls"), Reply::Listing(ref l) if l.is_empty()));
    k.run("touch zeta");
    k.run("touch Alpha");
    k.run("touch beta");
    k.run("write beta 12345");
    match k.run("ls") {
        Reply::Listing(l) => {
            let names: Vec<&str> = l.iter().map(|f| f.name.as_str()).collect();
            assert_eq!(names, vec!["Alpha", "beta", "zeta"]);
            assert_eq!(l[1].size, 5);
        }
        _ => panic!("expected listing"),
    }
}

#[test]
fn guest_cannot_kill_or_remove() {
    let mut k = Kernel::new();
    k.run("touch keep");
    assert!(matches!(k.run("logout"), Reply::LoggedOut));
    assert_eq!(k.shell.user(), SessionUser::Guest);
    assert!(matches!(k.run("rm keep"), Reply::PermissionDenied("rm")));
    assert!(matches!(k.run("kill 1"), Reply::PermissionDenied("kill")));
    // the root check comes before the arguments
    assert!(matches!(k.run("kill"), Reply::PermissionDenied("kill")));
    assert_eq!(list_files(&k.fs).len(), 1);
    assert!(matches!(k.run("whoami"), Reply::Whoami(SessionUser::Guest)));
    assert!(matches!(k.run("login root"), Reply::UnknownUser));
    assert!(matches!(k.run("su enos"), Reply::SwitchedUser(SessionUser::Enos)));
    assert!(matches!(k.run("id"), Reply::Id(SessionUser::Enos)));
    assert!(matches!(k.run("login user"), Reply::SwitchedUser(SessionUser::Guest)));
}

#[test]
fn kill_through_the_shell() {
    let mut k = Kernel::new();
    k.tasks.register_named_task("background_thread", 0x10000);
    k.tasks.schedule_next(0x5000);
    assert!(matches!(k.run("kill x"), Reply::InvalidPid));
    match k.run("kill 2") {
        Reply::Killed(pid, r, _) => {
            assert_eq!(pid, 2);
            assert_eq!(r, Err("cannot kill kernel task"));
        }
        _ => panic!("expected kill"),
    }
    match k.run("kill 1") {
        Reply::Killed(pid, r, list) => {
            assert_eq!(pid, 1);
            assert_eq!(r, Ok(KillTaskResult::KilledNow));
            assert!(list.iter().all(|p| p.id != 1));
        }
        _ => panic!("expected kill"),
    }
    match k.run("kill 9") {
        Reply::Killed(_, r, _) => assert_eq!(r, Err("pid not found")),
        _ => panic!("expected kill"),
    }
}

#[test]
fn scheduler_views() {
    let mut k = Kernel::new();
    k.tasks.register_named_task("background_thread", 0x10000);
    for esp in [0x5000, 0x9000, 0x5100] {
        k.tasks.schedule_next(esp);
    }
    match k.run("uptime") {
        Reply::Uptime(st, d) => {
            assert_eq!(st.total_ticks, 3);
            assert_eq!(d, (0, 0, 0, 30));
        }
        _ => panic!("expected uptime"),
    }
    match k.run("ps") {
        Reply::Ps(l) => assert_eq!(l.len(), 3),
        _ => panic!("expected ps"),
    }
    match k.run("top") {
        Reply::Top(st, l) => {
            assert_eq!(st.total_tasks, 3);
            assert_eq!(l.len(), 3);
        }
        _ => panic!("expected top"),
    }
    match k.run("tasks") {
        Reply::Tasks(st, _, l) => {
            assert_eq!(st.current_task_id, 2);
            assert_eq!(l.len(), 3);
        }
        _ => panic!("expected tasks"),
    }
}

#[test]
fn history_records_evaluated_lines() {
    let mut k = Kernel::new();
    k.run("echo one");
    k.run("  echo two  ");
    let echo = k.shell.history_up();
    assert_eq!(echo.iter().collect::<String>(), "echo two");
}

#[test]
fn cpu_share() {
    assert_eq!(cpu_percent(0, 0), 0);
    assert_eq!(cpu_percent(5, 0), 0);
    assert_eq!(cpu_percent(1, 3), 33);
    assert_eq!(cpu_percent(3, 3), 100);
    assert_eq!(cpu_percent(10, 1000), 1);
    // the product saturates instead of wrapping
    assert_eq!(cpu_percent(u64::MAX, u64::MAX), 1);
}

#[test]
fn sorting_listings() {
    let files = vec![
        FileInfo { name: "b.txt".to_string(), size: 1 },
        FileInfo { name: "B.txt".to_string(), size: 2 },
        FileInfo { name: "a".to_string(), size: 3 },
        FileInfo { name: "ab".to_string(), size: 4 },
    ];
    let sorted = sort_by_name(files);
    let names: Vec<&str> = sorted.iter().map(|f| f.name.as_str()).collect();
    assert_eq!(names, vec!["B.txt", "a", "ab", "b.txt"]);
    assert_eq!(sorted[0].size, 2);
}

#[test]
fn fs_listing_keeps_creation_order() {
    let mut fs = FileSystem::new();
    create_file(&mut fs, "second").unwrap();
    create_file(&mut fs, "first").unwrap();
    write_file(&mut fs, "first", "é").unwrap();
    let l = list_files(&fs);
    assert_eq!(l[0].name, "second");
    assert_eq!(l[1].size, 2);
}

#[test]
fn utf8_sizes() {
    assert_eq!(char_byte_len('a'), 1);
    assert_eq!(char_byte_len('é'), 2);
    assert_eq!(char_byte_len('€'), 3);
    assert_eq!(char_byte_len('😀'), 4);
    assert_eq!(text_byte_len(&['a', 'é', '€']), 6);
    assert_eq!(string_from_chars(&['h', 'é']), "hé");
}

#[test]
fn input_limit_counts_bytes() {
    let mut sh = Shell::new();
    for _ in 0..127 {
        push_char(&mut sh, 'é');
    }
    // 254 bytes: one more two-byte character still fits
    push_char(&mut sh, 'é');
    assert_eq!(sh.input().len(), 128);
    // 256 bytes: full
    let out = push_char(&mut sh, 'x');
    assert!(out.echo.is_empty());
    assert_eq!(sh.input().len(), 128);
    let mut sh2 = Shell::new();
    for _ in 0..255 {
        push_char(&mut sh2, 'a');
    }
    // 255 bytes: a four-byte character is still taken
    push_char(&mut sh2, '😀');
    assert_eq!(sh2.input().len(), 256);
    assert_eq!(text_byte_len(sh2.input()), 259);
}

#[test]
fn heap_usage() {
    let mut a = SimpleAllocator::new();
    let st = a.heap_stats();
    assert_eq!((st.used_bytes, st.free_bytes, st.total_bytes, st.used_percent), (0, HEAP_SIZE, HEAP_SIZE, 0));
    a.allocate(0x1000, HEAP_SIZE / 4, 1).unwrap();
    let st = a.heap_stats();
    assert_eq!(st.used_bytes, HEAP_SIZE / 4);
    assert_eq!(st.free_bytes, HEAP_SIZE - HEAP_SIZE / 4);
    assert_eq!(st.used_percent, 25);
}

#[test]
fn typing_a_line_evaluates_it_on_enter() {
    let mut k = Kernel::new();
    for c in "echo hi".chars() {
        let r = type_char(&mut k.shell, &mut k.fs, &mut k.tasks, c);
        assert!(r.reply.is_none());
        assert_eq!(r.echo, vec![c]);
    }
    let r = type_char(&mut k.shell, &mut k.fs, &mut k.tasks, '\n');
    assert_eq!(r.echo, vec!['\n']);
    match r.reply {
        Some(Reply::Echo(s)) => assert_eq!(s, "hi"),
        _ => panic!("expected the line to be evaluated"),
    }
    // "ls" then Enter through the keyboard: l = 0x26, s = 0x1F, Enter = 0x1C
    assert!(type_scancode(&mut k.shell, &mut k.fs, &mut k.tasks, 0x26).reply.is_none());
    assert!(type_scancode(&mut k.shell, &mut k.fs, &mut k.tasks, 0x1F).reply.is_none());
    match type_scancode(&mut k.shell, &mut k.fs, &mut k.tasks, 0x1C).reply {
        Some(Reply::Listing(l)) => assert!(l.is_empty()),
        _ => panic!("expected a listing"),
    }
}

#[test]
fn history_recall_erases_one_backspace_per_byte() {
    let mut k = Kernel::new();
    k.run("echo a");
    // "ñ€" is 5 bytes in UTF-8 (2 + 3)
    push_char(&mut k.shell, 'ñ');
    push_char(&mut k.shell, '€');
    let echo = k.shell.history_up();
    let backspaces = echo.iter().take_while(|&&c| c == '\u{8}').count();
    assert_eq!(backspaces, 5);
    assert_eq!(echo[5..].iter().collect::<String>(), "echo a");
}
