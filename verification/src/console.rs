use vstd::prelude::*;
use vstd::utf8::encode_utf8;
use crate::calc::{eval_calc_expression, eval_spec};
use crate::command::{login_target, login_target_spec, parse_command, parse_spec, Command, CommandModel};
use crate::format::{duration_spec, format_duration_from_ticks};
use crate::fs::{
    create_file, create_spec, delete_file, delete_spec, fs_wf, info_matches, list_files, read_file,
    read_spec, sort_by_name, sorted_by_name, write_file, write_spec, FileInfo, FileModel, FileSystem,
    FsStats,
};
use crate::shell::{
    process_scancode, push_char, push_char_spec, scancode_step, shell_wf, take_line_spec, SessionUser,
    Shell, ShellModel,
};
use crate::task::{
    kill_spec, model_wf, snapshot_spec, KillTaskResult, ProcessSnapshot, SchedulerModel,
    SchedulerStats, TaskManager,
};
use crate::text::{parse_usize, parse_usize_spec, string_from_chars};

verus! {

/// What evaluating a command line has to show. The console prints it; the
/// state changes have already been made.
pub enum Reply {
    /// An empty line: only a new prompt.
    Nothing,
    ClearScreen,
    /// The command's usage, such as `echo <msg>`.
    Usage(&'static str),
    Echo(String),
    Calc(Result<i64, &'static str>),
    Help,
    /// Scheduler figures and the uptime as hours, minutes, seconds and
    /// milliseconds.
    Uptime(SchedulerStats, (u64, u64, u64, u64)),
    Ps(Vec<ProcessSnapshot>),
    Top(SchedulerStats, Vec<ProcessSnapshot>),
    Tasks(SchedulerStats, (u64, u64, u64, u64), Vec<ProcessSnapshot>),
    Meminfo(FsStats),
    Whoami(SessionUser),
    Id(SessionUser),
    SwitchedUser(SessionUser),
    UnknownUser,
    LoggedOut,
    /// The named action needs the `enos` root identity.
    PermissionDenied(&'static str),
    InvalidPid,
    /// The pid, how the kill went, and the process list after it.
    Killed(usize, Result<KillTaskResult, &'static str>, Vec<ProcessSnapshot>),
    Touched(String, Result<(), &'static str>),
    Removed(String, Result<(), &'static str>),
    /// The files, sorted by name (empty when there are none).
    Listing(Vec<FileInfo>),
    Wrote(String, Result<(), &'static str>),
    Cat(Result<String, &'static str>),
    Fsinfo(FsStats),
    About,
    /// The whole line, which names no command.
    NotFound(String),
}

/// The entry shows one of the files.
pub open spec fn shows_a_file(x: FileInfo, files: Seq<FileModel>) -> bool {
    exists|j: int| 0 <= j < files.len() && info_matches(x, files[j])
}

/// The file has an entry in the listing.
pub open spec fn is_listed(l: Seq<FileInfo>, f: FileModel) -> bool {
    exists|i: int| 0 <= i < l.len() && info_matches(l[i], f)
}

/// The listing shows the files, each once: as many entries as files, every
/// entry a file and every file an entry (file names are distinct).
pub open spec fn listing_of(l: Seq<FileInfo>, files: Seq<FileModel>) -> bool {
    &&& l.len() == files.len()
    &&& forall|i: int| 0 <= i < l.len() ==> shows_a_file(#[trigger] l[i], files)
    &&& forall|j: int| 0 <= j < files.len() ==> is_listed(l, #[trigger] files[j])
}

/// The file system and the scheduler are left as they were.
pub open spec fn unchanged(f0: Seq<FileModel>, t0: SchedulerModel, f1: Seq<FileModel>, t1: SchedulerModel) -> bool {
    f1 == f0 && t1 == t0
}

/// What running `cmd` (from the non-empty `line`) as `user` does: the user,
/// files and scheduler afterwards (`u1`, `f1`, `t1`) and the reply.
/// `kill` and `rm` need root, which is checked before their arguments.
pub open spec fn run_spec(
    cmd: CommandModel,
    line: Seq<char>,
    user: SessionUser,
    f0: Seq<FileModel>,
    t0: SchedulerModel,
    u1: SessionUser,
    f1: Seq<FileModel>,
    t1: SchedulerModel,
    reply: Reply,
) -> bool {
    let keep = unchanged(f0, t0, f1, t1);
    match cmd {
        CommandModel::Login(w) => keep && match w {
            None => u1 == user && (reply matches Reply::Usage(u) && u == "login <enos|guest>"),
            Some(w) => match login_target_spec(w) {
                Some(target) => u1 == target && (reply matches Reply::SwitchedUser(v) && v
                    == target),
                None => u1 == user && reply is UnknownUser,
            },
        },
        CommandModel::Logout => keep && u1 == SessionUser::Guest && reply is LoggedOut,
        _ => u1 == user && match cmd {
            CommandModel::Clear => keep && reply is ClearScreen,
            CommandModel::Echo(t) => keep && if t.len() == 0 {
                reply matches Reply::Usage(u) && u == "echo <msg>"
            } else {
                reply matches Reply::Echo(s) && s@ == t
            },
            CommandModel::Calc(e) => keep && if e.len() == 0 {
                reply matches Reply::Usage(u) && u == "calc <expression>"
            } else {
                reply matches Reply::Calc(r) && r == eval_spec(encode_utf8(e))
            },
            CommandModel::Help => keep && reply is Help,
            CommandModel::Uptime => keep && (reply matches Reply::Uptime(st, d) && st
                == crate::task::stats_spec(t0) && d == duration_spec(st.total_ticks)),
            CommandModel::Ps => keep && (reply matches Reply::Ps(l) && l@ == snapshot_spec(t0)),
            CommandModel::Top => keep && (reply matches Reply::Top(st, l) && st
                == crate::task::stats_spec(t0) && l@ == snapshot_spec(t0)),
            CommandModel::Tasks => keep && (reply matches Reply::Tasks(st, d, l) && st
                == crate::task::stats_spec(t0) && d == duration_spec(st.total_ticks) && l@
                == snapshot_spec(t0)),
            CommandModel::Meminfo => keep && (reply matches Reply::Meminfo(st) && st
                == crate::fs::stats_spec(f0)),
            CommandModel::Whoami => keep && (reply matches Reply::Whoami(u) && u == user),
            CommandModel::Id => keep && (reply matches Reply::Id(u) && u == user),
            CommandModel::Kill(w) => if user != SessionUser::Enos {
                keep && (reply matches Reply::PermissionDenied(a) && a == "kill")
            } else {
                match w {
                    None => keep && (reply matches Reply::Usage(u) && u == "kill <pid>"),
                    Some(w) => match parse_usize_spec(w) {
                        None => keep && reply is InvalidPid,
                        Some(pid) => f1 == f0 && (reply matches Reply::Killed(p, r, l) && p == pid
                            && (t1, r) == kill_spec(t0, pid) && l@ == snapshot_spec(t1)),
                    },
                }
            },
            CommandModel::Touch(w) => match w {
                None => keep && (reply matches Reply::Usage(u) && u == "touch <file>"),
                Some(n) => t1 == t0 && (reply matches Reply::Touched(s, r) && s@ == n && (f1, r)
                    == create_spec(f0, n)),
            },
            CommandModel::Rm(w) => if user != SessionUser::Enos {
                keep && (reply matches Reply::PermissionDenied(a) && a == "rm")
            } else {
                match w {
                    None => keep && (reply matches Reply::Usage(u) && u == "rm <file>"),
                    Some(n) => t1 == t0 && (reply matches Reply::Removed(s, r) && s@ == n && (f1, r)
                        == delete_spec(f0, n)),
                }
            },
            CommandModel::Ls => keep && (reply matches Reply::Listing(l) && sorted_by_name(l@)
                && listing_of(l@, f0)),
            CommandModel::Write(a) => match a {
                None => keep && (reply matches Reply::Usage(u) && u == "write <file> <text>"),
                Some((n, c)) => t1 == t0 && (reply matches Reply::Wrote(s, r) && s@ == n && (f1, r)
                    == write_spec(f0, n, c)),
            },
            CommandModel::Cat(w) => keep && match w {
                None => reply matches Reply::Usage(u) && u == "cat <file>",
                Some(n) => reply matches Reply::Cat(r) && match (r, read_spec(f0, n)) {
                    (Ok(s), Ok(c)) => s@ == c,
                    (Err(e), Err(f)) => e == f,
                    _ => false,
                },
            },
            CommandModel::Fsinfo => keep && (reply matches Reply::Fsinfo(st) && st
                == crate::fs::stats_spec(f0)),
            CommandModel::About => keep && reply is About,
            CommandModel::NotFound => keep && (reply matches Reply::NotFound(s) && s@ == line),
            _ => false,
        },
    }
}

/// Runs a parsed command from the non-empty line `line`; see `run_spec`.
fn run_command(
    cmd: Command,
    line: &[char],
    shell: &mut Shell,
    fs: &mut FileSystem,
    tasks: &mut TaskManager,
) -> (reply: Reply)
    requires
        shell_wf(old(shell)@),
        fs_wf(old(fs)@),
        model_wf(old(tasks)@),
    ensures
        final(shell)@ == (ShellModel { user: final(shell)@.user, ..old(shell)@ }),
        shell_wf(final(shell)@),
        fs_wf(final(fs)@),
        model_wf(final(tasks)@),
        run_spec(
            cmd.model(),
            line@,
            old(shell)@.user,
            old(fs)@,
            old(tasks)@,
            final(shell)@.user,
            final(fs)@,
            final(tasks)@,
            reply,
        ),
{
    let root = shell.is_root();
    match cmd {
        Command::Clear => Reply::ClearScreen,
        Command::Echo(text) => {
            if text.len() == 0 {
                Reply::Usage("echo <msg>")
            } else {
                Reply::Echo(string_from_chars(text.as_slice()))
            }
        },
        Command::Calc(expr) => {
            if expr.len() == 0 {
                Reply::Usage("calc <expression>")
            } else {
                let e = string_from_chars(expr.as_slice());
                Reply::Calc(eval_calc_expression(e.as_str()))
            }
        },
        Command::Help => Reply::Help,
        Command::Uptime => {
            let st = tasks.stats();
            Reply::Uptime(st, format_duration_from_ticks(st.total_ticks))
        },
        Command::Ps => Reply::Ps(tasks.process_snapshot()),
        Command::Top => {
            let st = tasks.stats();
            Reply::Top(st, tasks.process_snapshot())
        },
        Command::Tasks => {
            let st = tasks.stats();
            let d = format_duration_from_ticks(st.total_ticks);
            Reply::Tasks(st, d, tasks.process_snapshot())
        },
        Command::Meminfo => Reply::Meminfo(crate::fs::stats(fs)),
        Command::Whoami => Reply::Whoami(shell.user()),
        Command::Id => Reply::Id(shell.user()),
        Command::Login(word) => match word {
            None => Reply::Usage("login <enos|guest>"),
            Some(w) => match login_target(w.as_slice()) {
                Some(target) => {
                    shell.switch_user(target);
                    Reply::SwitchedUser(target)
                },
                None => Reply::UnknownUser,
            },
        },
        Command::Logout => {
            shell.switch_user(SessionUser::Guest);
            Reply::LoggedOut
        },
        Command::Kill(word) => {
            if !root {
                return Reply::PermissionDenied("kill");
            }
            match word {
                None => Reply::Usage("kill <pid>"),
                Some(w) => match parse_usize(w.as_slice()) {
                    None => Reply::InvalidPid,
                    Some(pid) => {
                        let r = tasks.kill_task_by_pid(pid);
                        Reply::Killed(pid, r, tasks.process_snapshot())
                    },
                },
            }
        },
        Command::Touch(word) => match word {
            None => Reply::Usage("touch <file>"),
            Some(w) => {
                let name = string_from_chars(w.as_slice());
                let r = create_file(fs, name.as_str());
                Reply::Touched(name, r)
            },
        },
        Command::Rm(word) => {
            if !root {
                return Reply::PermissionDenied("rm");
            }
            match word {
                None => Reply::Usage("rm <file>"),
                Some(w) => {
                    let name = string_from_chars(w.as_slice());
                    let r = delete_file(fs, name.as_str());
                    Reply::Removed(name, r)
                },
            }
        },
        Command::Ls => Reply::Listing(listing(fs)),
        Command::Write(args) => match args {
            None => Reply::Usage("write <file> <text>"),
            Some((n, c)) => {
                let name = string_from_chars(n.as_slice());
                let content = string_from_chars(c.as_slice());
                let r = write_file(fs, name.as_str(), content.as_str());
                Reply::Wrote(name, r)
            },
        },
        Command::Cat(word) => match word {
            None => Reply::Usage("cat <file>"),
            Some(w) => {
                let name = string_from_chars(w.as_slice());
                Reply::Cat(read_file(fs, name.as_str()))
            },
        },
        Command::Fsinfo => Reply::Fsinfo(crate::fs::stats(fs)),
        Command::About => Reply::About,
        Command::NotFound => Reply::NotFound(string_from_chars(line)),
    }
}

/// The files sorted by name, as `ls` lists them.
fn listing(fs: &FileSystem) -> (l: Vec<FileInfo>)
    requires
        fs_wf(fs@),
    ensures
        sorted_by_name(l@),
        listing_of(l@, fs@),
{
    broadcast use vstd::seq_lib::group_to_multiset_ensures;

    let files = list_files(fs);
    let sorted = sort_by_name(files);
    proof {
        let f = fs@;
        let a = files@;
        let b = sorted@;
        assert(a.len() == b.len()) by {
            assert(a.to_multiset().len() == b.to_multiset().len());
        }
        assert forall|i: int| 0 <= i < b.len() implies shows_a_file(#[trigger] b[i], f) by {
            assert(b.contains(b[i]));
            assert(b.to_multiset().count(b[i]) > 0);
            assert(a.contains(b[i]));
            let j = choose|j: int| 0 <= j < a.len() && a[j] == b[i];
            assert(info_matches(a[j], f[j]));
        }
        assert forall|j: int| 0 <= j < f.len() implies is_listed(b, #[trigger] f[j]) by {
            assert(a.contains(a[j]));
            assert(a.to_multiset().count(a[j]) > 0);
            assert(b.contains(a[j]));
            let i = choose|i: int| 0 <= i < b.len() && b[i] == a[j];
            assert(info_matches(b[i], f[j]));
        }
    }
    sorted
}

/// What evaluating the submitted line does, from shell, files and
/// scheduler `s0`, `f0`, `t0` to `s1`, `f1`, `t1` with `reply`: the line is
/// taken from the shell (trimmed, and recorded in the history when not
/// empty), parsed, and the command run; see `run_spec`.
pub open spec fn evaluated(
    s0: ShellModel,
    f0: Seq<FileModel>,
    t0: SchedulerModel,
    s1: ShellModel,
    f1: Seq<FileModel>,
    t1: SchedulerModel,
    reply: Reply,
) -> bool {
    let (m1, line) = take_line_spec(s0);
    &&& s1 == (ShellModel { user: s1.user, ..m1 })
    &&& line.len() == 0 ==> s1 == m1 && unchanged(f0, t0, f1, t1) && reply is Nothing
    &&& line.len() > 0 ==> run_spec(parse_spec(line), line, m1.user, f0, t0, s1.user, f1, t1, reply)
}

/// Evaluates the line the user submitted; see `evaluated`.
pub fn evaluate_command(shell: &mut Shell, fs: &mut FileSystem, tasks: &mut TaskManager) -> (reply:
    Reply)
    requires
        shell_wf(old(shell)@),
        fs_wf(old(fs)@),
        model_wf(old(tasks)@),
    ensures
        shell_wf(final(shell)@),
        fs_wf(final(fs)@),
        model_wf(final(tasks)@),
        evaluated(old(shell)@, old(fs)@, old(tasks)@, final(shell)@, final(fs)@, final(tasks)@, reply),
{
    let line = shell.take_command_line();
    if line.len() == 0 {
        return Reply::Nothing;
    }
    let cmd = parse_command(line.as_slice());
    run_command(cmd, line.as_slice(), shell, fs, tasks)
}

/// What a key press did: its echo and, when it submitted the line, what
/// evaluating the line replied.
pub struct KeyReply {
    pub echo: Vec<char>,
    pub reply: Option<Reply>,
}

/// A key step (`push_char_spec` or `scancode_step`'s result `step`) followed
/// by the evaluation of the line when the key submitted it.
pub open spec fn key_then_evaluate(
    step: (ShellModel, Seq<char>, bool),
    f0: Seq<FileModel>,
    t0: SchedulerModel,
    s1: ShellModel,
    f1: Seq<FileModel>,
    t1: SchedulerModel,
    r: KeyReply,
) -> bool {
    let (m, echo, submitted) = step;
    &&& r.echo@ == echo
    &&& !submitted ==> s1 == m && unchanged(f0, t0, f1, t1) && r.reply is None
    &&& submitted ==> (r.reply matches Some(reply) && evaluated(m, f0, t0, s1, f1, t1, reply))
}

/// Types the character `c`; a newline submits the line, which is then
/// evaluated.
pub fn type_char(shell: &mut Shell, fs: &mut FileSystem, tasks: &mut TaskManager, c: char) -> (r:
    KeyReply)
    requires
        shell_wf(old(shell)@),
        fs_wf(old(fs)@),
        model_wf(old(tasks)@),
    ensures
        shell_wf(final(shell)@),
        fs_wf(final(fs)@),
        model_wf(final(tasks)@),
        key_then_evaluate(
            push_char_spec(old(shell)@, c),
            old(fs)@,
            old(tasks)@,
            final(shell)@,
            final(fs)@,
            final(tasks)@,
            r,
        ),
{
    let out = push_char(shell, c);
    if out.submitted {
        let reply = evaluate_command(shell, fs, tasks);
        KeyReply { echo: out.echo, reply: Some(reply) }
    } else {
        KeyReply { echo: out.echo, reply: None }
    }
}

/// Handles one scancode from the keyboard; Enter submits the line, which is
/// then evaluated.
pub fn type_scancode(shell: &mut Shell, fs: &mut FileSystem, tasks: &mut TaskManager, scancode: u8) -> (r:
    KeyReply)
    requires
        shell_wf(old(shell)@),
        fs_wf(old(fs)@),
        model_wf(old(tasks)@),
    ensures
        shell_wf(final(shell)@),
        fs_wf(final(fs)@),
        model_wf(final(tasks)@),
        key_then_evaluate(
            scancode_step(old(shell)@, scancode),
            old(fs)@,
            old(tasks)@,
            final(shell)@,
            final(fs)@,
            final(tasks)@,
            r,
        ),
{
    let out = process_scancode(shell, scancode);
    if out.submitted {
        let reply = evaluate_command(shell, fs, tasks);
        KeyReply { echo: out.echo, reply: Some(reply) }
    } else {
        KeyReply { echo: out.echo, reply: None }
    }
}

/// `kill` and `rm` are root only: run as `guest`, they are refused and
/// change nothing.
pub proof fn law_guest_cannot_kill_or_remove(
    cmd: CommandModel,
    line: Seq<char>,
    f0: Seq<FileModel>,
    t0: SchedulerModel,
    u1: SessionUser,
    f1: Seq<FileModel>,
    t1: SchedulerModel,
    reply: Reply,
)
    requires
        cmd is Kill || cmd is Rm,
        run_spec(cmd, line, SessionUser::Guest, f0, t0, u1, f1, t1, reply),
    ensures
        f1 == f0,
        t1 == t0,
        u1 == SessionUser::Guest,
        reply is PermissionDenied,
{
}

/// Only `login`, `su` and `logout` change who is logged in.
pub proof fn law_only_login_switches_user(
    cmd: CommandModel,
    line: Seq<char>,
    user: SessionUser,
    f0: Seq<FileModel>,
    t0: SchedulerModel,
    u1: SessionUser,
    f1: Seq<FileModel>,
    t1: SchedulerModel,
    reply: Reply,
)
    requires
        !(cmd is Login || cmd is Logout),
        run_spec(cmd, line, user, f0, t0, u1, f1, t1, reply),
    ensures
        u1 == user,
{
}

/// Only `touch`, `rm` and `write` change the files, and only `kill` changes
/// the scheduler.
pub proof fn law_commands_touch_only_their_state(
    cmd: CommandModel,
    line: Seq<char>,
    user: SessionUser,
    f0: Seq<FileModel>,
    t0: SchedulerModel,
    u1: SessionUser,
    f1: Seq<FileModel>,
    t1: SchedulerModel,
    reply: Reply,
)
    requires
        run_spec(cmd, line, user, f0, t0, u1, f1, t1, reply),
    ensures
        !(cmd is Touch || cmd is Rm || cmd is Write) ==> f1 == f0,
        !(cmd is Kill) ==> t1 == t0,
{
}

/// `logout` always leaves the session as `guest`, and `login enos` always
/// makes it root again.
pub proof fn law_login_and_logout(
    line: Seq<char>,
    user: SessionUser,
    f0: Seq<FileModel>,
    t0: SchedulerModel,
    u1: SessionUser,
    f1: Seq<FileModel>,
    t1: SchedulerModel,
    reply: Reply,
)
    ensures
        run_spec(CommandModel::Logout, line, user, f0, t0, u1, f1, t1, reply) ==> u1
            == SessionUser::Guest,
        run_spec(
            CommandModel::Login(Some(seq!['e', 'n', 'o', 's'])),
            line,
            user,
            f0,
            t0,
            u1,
            f1,
            t1,
            reply,
        ) ==> u1 == SessionUser::Enos,
{
}

} // verus!
