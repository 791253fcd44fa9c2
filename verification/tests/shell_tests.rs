use enos::command::{login_target, parse_command, parse_login_target, parse_pid, Command};
use enos::format::{format_bytes, format_duration_from_ticks, ticks_to_ms};
use enos::history::HistoryState;
use enos::keyboard::{map_key, map_letter_base, map_non_letter, InputAction, KeyboardState};
use enos::shell::{process_scancode, push_char, SessionState, SessionUser, Shell};
use enos::text::{parse_usize, split_words, to_decimal, trim, trim_start};

fn chars(s: &str) -> Vec<char> {
    s.chars().collect()
}

fn text(v: &[char]) -> String {
    v.iter().collect()
}

fn type_keys(shell: &mut Shell, codes: &[u8]) -> (String, bool) {
    let mut echo = String::new();
    let mut submitted = false;
    for &c in codes {
        let out = process_scancode(shell, c);
        echo.push_str(&text(&out.echo));
        submitted |= out.submitted;
    }
    (echo, submitted)
}

#[test]
fn key_maps() {
    assert_eq!(map_letter_base(0x1E), Some('a'));
    assert_eq!(map_letter_base(0x32), Some('m'));
    assert_eq!(map_letter_base(0x02), None);
    assert_eq!(map_non_letter(0x02, false), Some('1'));
    assert_eq!(map_non_letter(0x02, true), Some('!'));
    assert_eq!(map_non_letter(0x39, true), Some(' '));
    assert_eq!(map_non_letter(0x4E, false), Some('+'));
    assert_eq!(map_non_letter(0x01, false), None);
    assert_eq!(map_key(0x1E, true, false), Some('A'));
    assert_eq!(map_key(0x1E, false, true), Some('A'));
    assert_eq!(map_key(0x1E, true, true), Some('a'));
    assert_eq!(map_key(0x0C, true, true), Some('_'));
}

#[test]
fn keyboard_modifiers() {
    let mut kb = KeyboardState::new();
    assert_eq!(kb.decode(0x2A), None);
    assert!(kb.shift_pressed);
    assert_eq!(kb.decode(0x23), Some(InputAction::Char('H')));
    assert_eq!(kb.decode(0xAA), None);
    assert!(!kb.shift_pressed);
    assert_eq!(kb.decode(0x3A), None);
    assert!(kb.caps_lock);
    assert_eq!(kb.decode(0x23), Some(InputAction::Char('H')));
    assert_eq!(kb.decode(0x3A), None);
    assert_eq!(kb.decode(0x23), Some(InputAction::Char('h')));
    // a key release produces nothing
    assert_eq!(kb.decode(0xA3), None);
    assert_eq!(kb.decode(0x0E), Some(InputAction::Backspace));
    assert_eq!(kb.decode(0x1C), Some(InputAction::Enter));
    assert_eq!(kb.decode(0x0F), Some(InputAction::Tab));
}

#[test]
fn extended_keys() {
    let mut kb = KeyboardState::new();
    assert_eq!(kb.decode(0xE0), None);
    assert!(kb.extended_prefix);
    assert_eq!(kb.decode(0x48), Some(InputAction::HistoryUp));
    assert!(!kb.extended_prefix);
    kb.decode(0xE0);
    assert_eq!(kb.decode(0x50), Some(InputAction::HistoryDown));
    // left/right arrows are swallowed instead of typing keypad digits
    kb.decode(0xE0);
    assert_eq!(kb.decode(0x4B), None);
    kb.decode(0xE0);
    assert_eq!(kb.decode(0xC8), None);
    assert_eq!(kb.decode(0x4B), Some(InputAction::Char('4')));
}

#[test]
fn typing_and_submitting() {
    let mut shell = Shell::new();
    let (echo, submitted) = type_keys(&mut shell, &[0x23, 0x17]);
    assert_eq!(echo, "hi");
    assert!(!submitted);
    assert_eq!(text(shell.input()), "hi");
    let (echo, submitted) = type_keys(&mut shell, &[0x1C]);
    assert_eq!(echo, "\n");
    assert!(submitted);
    assert_eq!(text(&shell.take_command_line()), "hi");
    assert!(shell.input().is_empty());
}

#[test]
fn backspace_and_tab() {
    let mut shell = Shell::new();
    let (echo, _) = type_keys(&mut shell, &[0x0E]);
    assert_eq!(echo, "");
    let (echo, _) = type_keys(&mut shell, &[0x1E, 0x0E]);
    assert_eq!(echo, "a\u{8}");
    assert!(shell.input().is_empty());
    let (echo, _) = type_keys(&mut shell, &[0x0F]);
    assert_eq!(echo, "    ");
    assert_eq!(text(shell.input()), "    ");
    // a line of blanks is submitted as an empty command
    assert_eq!(text(&shell.take_command_line()), "");
}

#[test]
fn input_line_is_capped() {
    let mut shell = Shell::new();
    for _ in 0..300 {
        push_char(&mut shell, 'x');
    }
    assert_eq!(shell.input().len(), 256);
    let out = push_char(&mut shell, 'y');
    assert!(out.echo.is_empty());
    let out = push_char(&mut shell, '\n');
    assert_eq!(out.echo, vec!['\n']);
    assert!(out.submitted);
}

#[test]
fn history_navigation_through_keys() {
    let mut shell = Shell::new();
    for c in "ls".chars() {
        push_char(&mut shell, c);
    }
    shell.take_command_line();
    for c in "ps".chars() {
        push_char(&mut shell, c);
    }
    shell.take_command_line();
    push_char(&mut shell, 'e');
    // Up: erase "e", show the newest entry
    let (echo, _) = type_keys(&mut shell, &[0xE0, 0x48]);
    assert_eq!(echo, "\u{8}ps");
    let (echo, _) = type_keys(&mut shell, &[0xE0, 0x48]);
    assert_eq!(echo, "\u{8}\u{8}ls");
    // at the oldest entry Up stays there
    let (echo, _) = type_keys(&mut shell, &[0xE0, 0x48]);
    assert_eq!(echo, "\u{8}\u{8}ls");
    let (echo, _) = type_keys(&mut shell, &[0xE0, 0x50]);
    assert_eq!(echo, "\u{8}\u{8}ps");
    // past the newest entry Down restores the line being typed
    let (echo, _) = type_keys(&mut shell, &[0xE0, 0x50]);
    assert_eq!(echo, "\u{8}\u{8}e");
    assert_eq!(text(shell.input()), "e");
    let (echo, _) = type_keys(&mut shell, &[0xE0, 0x50]);
    assert_eq!(echo, "");
}

#[test]
fn history_record_rules() {
    let mut h = HistoryState::new();
    assert_eq!(h.previous(&chars("draft")), None);
    h.record(&chars("a"));
    h.record(&chars("a"));
    h.record(&chars(""));
    h.record(&chars("b"));
    assert_eq!(h.previous(&chars("cur")).map(|v| text(&v)), Some("b".to_string()));
    assert_eq!(h.previous(&chars("ignored")).map(|v| text(&v)), Some("a".to_string()));
    assert_eq!(h.previous(&chars("ignored")).map(|v| text(&v)), Some("a".to_string()));
    assert_eq!(h.next().map(|v| text(&v)), Some("b".to_string()));
    assert_eq!(h.next().map(|v| text(&v)), Some("cur".to_string()));
    assert_eq!(h.next(), None);
}

#[test]
fn history_keeps_sixty_four() {
    let mut h = HistoryState::new();
    for i in 0..70 {
        h.record(&chars(&format!("cmd{}", i)));
    }
    let mut oldest = String::new();
    for _ in 0..100 {
        if let Some(v) = h.previous(&chars("")) {
            oldest = text(&v);
        }
    }
    assert_eq!(oldest, "cmd6");
    h.reset_navigation();
    assert_eq!(h.next(), None);
}

#[test]
fn session_identity() {
    let s = SessionState::new();
    assert_eq!(s.user, SessionUser::Enos);
    assert_eq!(SessionUser::Enos.name(), "enos");
    assert_eq!(SessionUser::Guest.name(), "guest");
    assert_eq!(SessionUser::Enos.uid(), 0);
    assert_eq!(SessionUser::Guest.uid(), 1000);
    assert!(SessionUser::Enos.is_root());
    assert!(!SessionUser::Guest.is_root());
    assert_eq!(SessionUser::Enos.prompt_suffix(), "#");
    assert_eq!(SessionUser::Guest.prompt_suffix(), "$");
    let mut shell = Shell::new();
    assert!(shell.is_root());
    shell.switch_user(SessionUser::Guest);
    assert!(!shell.is_root());
    assert_eq!(shell.user(), SessionUser::Guest);
}

fn parse(s: &str) -> Command {
    parse_command(&chars(s))
}

#[test]
fn command_words() {
    assert!(matches!(parse("clear"), Command::Clear));
    assert!(matches!(parse("help"), Command::Help));
    assert!(matches!(parse("uptime"), Command::Uptime));
    assert!(matches!(parse("ps"), Command::Ps));
    assert!(matches!(parse("top"), Command::Top));
    assert!(matches!(parse("tasks"), Command::Tasks));
    assert!(matches!(parse("meminfo"), Command::Meminfo));
    assert!(matches!(parse("whoami"), Command::Whoami));
    assert!(matches!(parse("id"), Command::Id));
    assert!(matches!(parse("logout"), Command::Logout));
    assert!(matches!(parse("ls"), Command::Ls));
    assert!(matches!(parse("fsinfo"), Command::Fsinfo));
    assert!(matches!(parse("about"), Command::About));
    assert!(matches!(parse("frobnicate"), Command::NotFound));
    assert!(matches!(parse("HELP"), Command::NotFound));
}

#[test]
fn command_arguments() {
    match parse("echo   hello  there") {
        Command::Echo(t) => assert_eq!(text(&t), "hello  there"),
        _ => panic!("not echo"),
    }
    match parse("echo") {
        Command::Echo(t) => assert!(t.is_empty()),
        _ => panic!("not echo"),
    }
    match parse("calc 1 + 2") {
        Command::Calc(t) => assert_eq!(text(&t), "1 + 2"),
        _ => panic!("not calc"),
    }
    match parse("su guest") {
        Command::Login(Some(w)) => assert_eq!(text(&w), "guest"),
        _ => panic!("not login"),
    }
    assert!(matches!(parse("login"), Command::Login(None)));
    match parse("kill 12 13") {
        Command::Kill(Some(w)) => assert_eq!(text(&w), "12"),
        _ => panic!("not kill"),
    }
    assert!(matches!(parse("touch"), Command::Touch(None)));
    match parse("rm notes") {
        Command::Rm(Some(w)) => assert_eq!(text(&w), "notes"),
        _ => panic!("not rm"),
    }
    match parse("cat\tnotes") {
        Command::Cat(Some(w)) => assert_eq!(text(&w), "notes"),
        _ => panic!("not cat"),
    }
}

#[test]
fn write_arguments() {
    match parse("write notes hello   world") {
        Command::Write(Some((n, t))) => {
            assert_eq!(text(&n), "notes");
            assert_eq!(text(&t), "hello   world");
        },
        _ => panic!("not write"),
    }
    match parse("write notes   spaced") {
        Command::Write(Some((n, t))) => {
            assert_eq!(text(&n), "notes");
            assert_eq!(text(&t), "spaced");
        },
        _ => panic!("not write"),
    }
    assert!(matches!(parse("write notes"), Command::Write(None)));
    assert!(matches!(parse("write"), Command::Write(None)));
    // two spaces leave the name empty
    assert!(matches!(parse("write  notes text"), Command::Write(None)));
    match parse("write notes "){
        Command::Write(Some((n, t))) => {
            assert_eq!(text(&n), "notes");
            assert!(t.is_empty());
        },
        _ => panic!("not write"),
    }
}

#[test]
fn permissions() {
    assert!(parse("kill 3").requires_root());
    assert!(parse("rm f").requires_root());
    assert!(!parse("touch f").requires_root());
    assert!(!parse("ls").requires_root());
}

#[test]
fn login_targets() {
    assert_eq!(login_target(&chars("enos")), Some(SessionUser::Enos));
    assert_eq!(login_target(&chars("guest")), Some(SessionUser::Guest));
    assert_eq!(login_target(&chars("user")), Some(SessionUser::Guest));
    assert_eq!(login_target(&chars("root")), None);
    assert_eq!(parse_login_target(&chars("login  enos now")).map(|w| text(&w)), Some("enos".to_string()));
    assert_eq!(parse_login_target(&chars("login")), None);
}

#[test]
fn pid_parsing() {
    assert_eq!(parse_pid(&chars("12")), Some(12));
    assert_eq!(parse_pid(&chars("+7")), Some(7));
    assert_eq!(parse_pid(&chars("007")), Some(7));
    assert_eq!(parse_pid(&chars("-1")), None);
    assert_eq!(parse_pid(&chars("")), None);
    assert_eq!(parse_pid(&chars("+")), None);
    assert_eq!(parse_pid(&chars("1a")), None);
    assert_eq!(parse_pid(&chars("99999999999999999999999")), None);
    let max = usize::MAX.to_string();
    assert_eq!(parse_usize(&chars(&max)), Some(usize::MAX));
    for s in ["0", "5", "+0", "123456", " 1", "1 "] {
        assert_eq!(parse_usize(&chars(s)), s.parse::<usize>().ok());
    }
}

#[test]
fn text_helpers() {
    assert_eq!(text(&trim(&chars("  a b \t"))), "a b");
    assert_eq!(text(&trim(&chars("   "))), "");
    assert_eq!(text(&trim_start(&chars("  a b "))), "a b ");
    let w: Vec<String> = split_words(&chars("  one two\tthree  ")).iter().map(|v| text(v)).collect();
    assert_eq!(w, vec!["one", "two", "three"]);
    assert!(split_words(&chars("   ")).is_empty());
    assert_eq!(text(&trim(&chars("\u{3000}x\u{a0}"))), "x");
    assert_eq!(text(&to_decimal(0)), "0");
    assert_eq!(text(&to_decimal(1234567890)), "1234567890");
    assert_eq!(text(&to_decimal(u64::MAX)), u64::MAX.to_string());
}

#[test]
fn byte_sizes() {
    assert_eq!(text(&format_bytes(0)), "0 B");
    assert_eq!(text(&format_bytes(1023)), "1023 B");
    assert_eq!(text(&format_bytes(1024)), "~1.0 KB");
    assert_eq!(text(&format_bytes(1536)), "~1.5 KB");
    assert_eq!(text(&format_bytes(2047)), "~1.9 KB");
    assert_eq!(text(&format_bytes(1048576)), "~1.0 MB");
    assert_eq!(text(&format_bytes(1048576 + 524288)), "~1.51 MB");
}

#[test]
fn durations() {
    assert_eq!(ticks_to_ms(0), 0);
    assert_eq!(ticks_to_ms(1), 10);
    assert_eq!(ticks_to_ms(250), 2500);
    assert_eq!(ticks_to_ms(u64::MAX), u64::MAX / 100);
    assert_eq!(format_duration_from_ticks(366_100), (1, 1, 1, 0));
    assert_eq!(format_duration_from_ticks(123), (0, 0, 1, 230));
    assert_eq!(format_duration_from_ticks(0), (0, 0, 0, 0));
}
