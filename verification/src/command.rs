use vstd::prelude::*;
use crate::shell::SessionUser;
use crate::text::{
    chars_eq, suffix_from, parse_usize, parse_usize_spec, split_words, trim_start,
    trim_start_spec, words,
};

verus! {

/// A shell command line, parsed.
pub enum Command {
    Clear,
    /// `echo`, with the text after the word (empty: print usage).
    Echo(Vec<char>),
    /// `calc`, with the expression after the word (empty: print usage).
    Calc(Vec<char>),
    Help,
    Uptime,
    Ps,
    Top,
    Tasks,
    Meminfo,
    Whoami,
    Id,
    /// `login` or `su`, with the target word if given.
    Login(Option<Vec<char>>),
    Logout,
    /// `kill`, with the pid word if given.
    Kill(Option<Vec<char>>),
    Touch(Option<Vec<char>>),
    Rm(Option<Vec<char>>),
    Ls,
    /// `write`, with the file name and the text, if both are given.
    Write(Option<(Vec<char>, Vec<char>)>),
    Cat(Option<Vec<char>>),
    Fsinfo,
    About,
    /// Any other word: "command not found".
    NotFound,
}

/// Abstract form of a command.
pub ghost enum CommandModel {
    Clear,
    Echo(Seq<char>),
    Calc(Seq<char>),
    Help,
    Uptime,
    Ps,
    Top,
    Tasks,
    Meminfo,
    Whoami,
    Id,
    Login(Option<Seq<char>>),
    Logout,
    Kill(Option<Seq<char>>),
    Touch(Option<Seq<char>>),
    Rm(Option<Seq<char>>),
    Ls,
    Write(Option<(Seq<char>, Seq<char>)>),
    Cat(Option<Seq<char>>),
    Fsinfo,
    About,
    NotFound,
}

pub open spec fn opt_view(o: Option<Vec<char>>) -> Option<Seq<char>> {
    match o {
        Some(v) => Some(v@),
        None => None,
    }
}

impl Command {
    pub open spec fn model(&self) -> CommandModel {
        match self {
            Command::Clear => CommandModel::Clear,
            Command::Echo(t) => CommandModel::Echo(t@),
            Command::Calc(t) => CommandModel::Calc(t@),
            Command::Help => CommandModel::Help,
            Command::Uptime => CommandModel::Uptime,
            Command::Ps => CommandModel::Ps,
            Command::Top => CommandModel::Top,
            Command::Tasks => CommandModel::Tasks,
            Command::Meminfo => CommandModel::Meminfo,
            Command::Whoami => CommandModel::Whoami,
            Command::Id => CommandModel::Id,
            Command::Login(w) => CommandModel::Login(opt_view(*w)),
            Command::Logout => CommandModel::Logout,
            Command::Kill(w) => CommandModel::Kill(opt_view(*w)),
            Command::Touch(w) => CommandModel::Touch(opt_view(*w)),
            Command::Rm(w) => CommandModel::Rm(opt_view(*w)),
            Command::Ls => CommandModel::Ls,
            Command::Write(a) => CommandModel::Write(
                match a {
                    Some((n, t)) => Some((n@, t@)),
                    None => None,
                },
            ),
            Command::Cat(w) => CommandModel::Cat(opt_view(*w)),
            Command::Fsinfo => CommandModel::Fsinfo,
            Command::About => CommandModel::About,
            Command::NotFound => CommandModel::NotFound,
        }
    }

    /// `kill` and `rm` need root.
    pub fn requires_root(&self) -> (r: bool)
        ensures
            r == (self.model() is Kill || self.model() is Rm),
    {
        match self {
            Command::Kill(_) | Command::Rm(_) => true,
            _ => false,
        }
    }
}

/// The second word of a line, if any.
pub open spec fn second_word(line: Seq<char>) -> Option<Seq<char>> {
    if words(line).len() >= 2 {
        Some(words(line)[1])
    } else {
        None
    }
}

/// What follows `prefix` at the start of `line`, with leading whitespace
/// removed; empty when `line` does not start with `prefix`.
pub open spec fn after_prefix(line: Seq<char>, prefix: Seq<char>) -> Seq<char> {
    if line.len() >= prefix.len() && line.subrange(0, prefix.len() as int) == prefix {
        trim_start_spec(line.subrange(prefix.len() as int, line.len() as int))
    } else {
        Seq::empty()
    }
}

/// First index at or after `from` that holds a space.
pub open spec fn find_space(s: Seq<char>, from: int) -> Option<int>
    decreases s.len() - from,
{
    if from < 0 || from >= s.len() {
        None
    } else if s[from] == ' ' {
        Some(from)
    } else {
        find_space(s, from + 1)
    }
}

/// `write <file> <text>` as `splitn(3, ' ')` splits it: the part between the
/// first two spaces (which must not be empty) and everything after the
/// second space, without leading whitespace.
pub open spec fn write_args(line: Seq<char>) -> Option<(Seq<char>, Seq<char>)> {
    match find_space(line, 0) {
        None => None,
        Some(i) => match find_space(line, i + 1) {
            None => None,
            Some(j) => if j == i + 1 {
                None
            } else {
                Some(
                    (
                        line.subrange(i + 1, j),
                        trim_start_spec(line.subrange(j + 1, line.len() as int)),
                    ),
                )
            },
        },
    }
}

/// The command a (trimmed) line asks for, by its first word.
pub open spec fn parse_spec(line: Seq<char>) -> CommandModel {
    let w = if words(line).len() > 0 {
        words(line)[0]
    } else {
        Seq::empty()
    };
    if w == seq!['c', 'l', 'e', 'a', 'r'] {
        CommandModel::Clear
    } else if w == seq!['e', 'c', 'h', 'o'] {
        CommandModel::Echo(after_prefix(line, seq!['e', 'c', 'h', 'o']))
    } else if w == seq!['c', 'a', 'l', 'c'] {
        CommandModel::Calc(after_prefix(line, seq!['c', 'a', 'l', 'c']))
    } else if w == seq!['h', 'e', 'l', 'p'] {
        CommandModel::Help
    } else if w == seq!['u', 'p', 't', 'i', 'm', 'e'] {
        CommandModel::Uptime
    } else if w == seq!['p', 's'] {
        CommandModel::Ps
    } else if w == seq!['t', 'o', 'p'] {
        CommandModel::Top
    } else if w == seq!['t', 'a', 's', 'k', 's'] {
        CommandModel::Tasks
    } else if w == seq!['m', 'e', 'm', 'i', 'n', 'f', 'o'] {
        CommandModel::Meminfo
    } else if w == seq!['w', 'h', 'o', 'a', 'm', 'i'] {
        CommandModel::Whoami
    } else if w == seq!['i', 'd'] {
        CommandModel::Id
    } else if w == seq!['l', 'o', 'g', 'i', 'n'] || w == seq!['s', 'u'] {
        CommandModel::Login(second_word(line))
    } else if w == seq!['l', 'o', 'g', 'o', 'u', 't'] {
        CommandModel::Logout
    } else if w == seq!['k', 'i', 'l', 'l'] {
        CommandModel::Kill(second_word(line))
    } else if w == seq!['t', 'o', 'u', 'c', 'h'] {
        CommandModel::Touch(second_word(line))
    } else if w == seq!['r', 'm'] {
        CommandModel::Rm(second_word(line))
    } else if w == seq!['l', 's'] {
        CommandModel::Ls
    } else if w == seq!['w', 'r', 'i', 't', 'e'] {
        CommandModel::Write(write_args(line))
    } else if w == seq!['c', 'a', 't'] {
        CommandModel::Cat(second_word(line))
    } else if w == seq!['f', 's', 'i', 'n', 'f', 'o'] {
        CommandModel::Fsinfo
    } else if w == seq!['a', 'b', 'o', 'u', 't'] {
        CommandModel::About
    } else {
        CommandModel::NotFound
    }
}

fn word_is(w: &[char], lit: &[char]) -> (r: bool)
    ensures
        r == (w@ == lit@),
{
    chars_eq(w, lit)
}

fn after_word(line: &[char], prefix: &[char]) -> (r: Vec<char>)
    ensures
        r@ == after_prefix(line@, prefix@),
{
    if line.len() < prefix.len() {
        return Vec::new();
    }
    let mut i: usize = 0;
    while i < prefix.len()
        invariant
            prefix@.len() <= line@.len(),
            i <= prefix@.len(),
            forall|k: int| 0 <= k < i ==> line@[k] == prefix@[k],
        decreases prefix@.len() - i,
    {
        if line[i] != prefix[i] {
            assert(line@.subrange(0, prefix@.len() as int)[i as int] != prefix@[i as int]);
            return Vec::new();
        }
        i += 1;
    }
    assert(line@.subrange(0, prefix@.len() as int) =~= prefix@);
    let rest = suffix_from(line, prefix.len());
    trim_start(rest.as_slice())
}

fn find_space_from(s: &[char], from: usize) -> (r: Option<usize>)
    requires
        from <= s@.len(),
    ensures
        match r {
            Some(i) => find_space(s@, from as int) == Some(i as int),
            None => find_space(s@, from as int) is None,
        },
{
    let mut i = from;
    while i < s.len()
        invariant
            from <= i <= s@.len(),
            find_space(s@, i as int) == find_space(s@, from as int),
        decreases s@.len() - i,
    {
        if s[i] == ' ' {
            return Some(i);
        }
        i += 1;
    }
    None
}

fn split_write_args(line: &[char]) -> (r: Option<(Vec<char>, Vec<char>)>)
    ensures
        match r {
            Some((n, t)) => write_args(line@) == Some((n@, t@)),
            None => write_args(line@) is None,
        },
{
    let len = line.len();
    let i = match find_space_from(line, 0) {
        Some(i) => i,
        None => {
            return None;
        },
    };
    proof {
        lemma_find_space_bounds(line@, 0);
        assert(find_space(line@, 0) == Some(i as int));
        assert(i < line@.len());
    }
    let j = match find_space_from(line, i + 1) {
        Some(j) => j,
        None => {
            return None;
        },
    };
    proof {
        lemma_find_space_bounds(line@, i as int + 1);
        assert(find_space(line@, i as int + 1) == Some(j as int));
        assert(j < line@.len());
    }
    if j == i + 1 {
        return None;
    }
    let mut name: Vec<char> = Vec::new();
    let mut k = i + 1;
    while k < j
        invariant
            i + 1 <= k <= j < line@.len(),
            name@ == line@.subrange(i + 1, k as int),
        decreases j - k,
    {
        name.push(line[k]);
        k += 1;
        assert(name@ =~= line@.subrange(i + 1, k as int));
    }
    let rest = suffix_from(line, j + 1);
    let text = trim_start(rest.as_slice());
    Some((name, text))
}

proof fn lemma_find_space_bounds(s: Seq<char>, from: int)
    requires
        0 <= from,
    ensures
        find_space(s, from) matches Some(i) ==> from <= i < s.len(),
    decreases s.len() - from,
{
    if from < s.len() && s[from] != ' ' {
        lemma_find_space_bounds(s, from + 1);
    }
}

fn second(ws: &Vec<Vec<char>>) -> (r: Option<Vec<char>>)
    ensures
        r matches Some(w) ==> ws@.len() >= 2 && w@ == ws@[1]@,
        r is None ==> ws@.len() < 2,
{
    if ws.len() >= 2 {
        Some(ws[1].clone())
    } else {
        None
    }
}

/// Parses a command line (as the shell submits it, trimmed).
pub fn parse_command(line: &[char]) -> (cmd: Command)
    ensures
        cmd.model() == parse_spec(line@),
{
    let ws = split_words(line);
    let empty: Vec<char> = Vec::new();
    let w: &[char] = if ws.len() > 0 {
        ws[0].as_slice()
    } else {
        empty.as_slice()
    };
    proof {
        if ws@.len() > 0 {
            assert(w@ == words(line@)[0]);
        } else {
            assert(w@ == Seq::<char>::empty());
        }
    }
    let second_w = second(&ws);
    proof {
        if second_w is Some {
            assert(second_w->0@ == words(line@)[1]);
        }
        assert(opt_view(second_w) == second_word(line@));
    }
    if word_is(w, &['c', 'l', 'e', 'a', 'r']) {
        Command::Clear
    } else if word_is(w, &['e', 'c', 'h', 'o']) {
        Command::Echo(after_word(line, &['e', 'c', 'h', 'o']))
    } else if word_is(w, &['c', 'a', 'l', 'c']) {
        Command::Calc(after_word(line, &['c', 'a', 'l', 'c']))
    } else if word_is(w, &['h', 'e', 'l', 'p']) {
        Command::Help
    } else if word_is(w, &['u', 'p', 't', 'i', 'm', 'e']) {
        Command::Uptime
    } else if word_is(w, &['p', 's']) {
        Command::Ps
    } else if word_is(w, &['t', 'o', 'p']) {
        Command::Top
    } else if word_is(w, &['t', 'a', 's', 'k', 's']) {
        Command::Tasks
    } else if word_is(w, &['m', 'e', 'm', 'i', 'n', 'f', 'o']) {
        Command::Meminfo
    } else if word_is(w, &['w', 'h', 'o', 'a', 'm', 'i']) {
        Command::Whoami
    } else if word_is(w, &['i', 'd']) {
        Command::Id
    } else if word_is(w, &['l', 'o', 'g', 'i', 'n']) || word_is(w, &['s', 'u']) {
        Command::Login(second_w)
    } else if word_is(w, &['l', 'o', 'g', 'o', 'u', 't']) {
        Command::Logout
    } else if word_is(w, &['k', 'i', 'l', 'l']) {
        Command::Kill(second_w)
    } else if word_is(w, &['t', 'o', 'u', 'c', 'h']) {
        Command::Touch(second_w)
    } else if word_is(w, &['r', 'm']) {
        Command::Rm(second_w)
    } else if word_is(w, &['l', 's']) {
        Command::Ls
    } else if word_is(w, &['w', 'r', 'i', 't', 'e']) {
        Command::Write(split_write_args(line))
    } else if word_is(w, &['c', 'a', 't']) {
        Command::Cat(second_w)
    } else if word_is(w, &['f', 's', 'i', 'n', 'f', 'o']) {
        Command::Fsinfo
    } else if word_is(w, &['a', 'b', 'o', 'u', 't']) {
        Command::About
    } else {
        Command::NotFound
    }
}

/// The identity `login <target>` switches to: `enos`, or `guest` (also
/// spelled `user`).
pub open spec fn login_target_spec(word: Seq<char>) -> Option<SessionUser> {
    if word == seq!['e', 'n', 'o', 's'] {
        Some(SessionUser::Enos)
    } else if word == seq!['g', 'u', 'e', 's', 't'] || word == seq!['u', 's', 'e', 'r'] {
        Some(SessionUser::Guest)
    } else {
        None
    }
}

pub fn login_target(word: &[char]) -> (r: Option<SessionUser>)
    ensures
        r == login_target_spec(word@),
{
    if word_is(word, &['e', 'n', 'o', 's']) {
        Some(SessionUser::Enos)
    } else if word_is(word, &['g', 'u', 'e', 's', 't']) || word_is(word, &['u', 's', 'e', 'r']) {
        Some(SessionUser::Guest)
    } else {
        None
    }
}

/// The target word of `login`/`su`: the second word of the line.
pub fn parse_login_target(command_line: &[char]) -> (r: Option<Vec<char>>)
    ensures
        opt_view(r) == second_word(command_line@),
{
    let ws = split_words(command_line);
    second(&ws)
}

/// The pid `kill` was given, as `str::parse::<usize>` reads it.
pub fn parse_pid(word: &[char]) -> (r: Option<usize>)
    ensures
        r == parse_usize_spec(word@),
{
    parse_usize(word)
}

} // verus!
