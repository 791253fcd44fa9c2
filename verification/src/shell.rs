use vstd::prelude::*;
use crate::history::{
    history_wf, next_spec, previous_spec, record_spec, reset_spec, HistoryModel, HistoryState,
};
use crate::keyboard::{scancode_spec, InputAction, KeyboardState};
use crate::text::{
    byte_len, char_byte_len, lemma_byte_len_push, lemma_byte_len_subrange, push_all, text_byte_len,
    trim, trim_spec,
};

verus! {

/// Input line limit, in bytes (UTF-8): a character is taken only while the
/// line is shorter than this, so a line ends at most three bytes past it.
pub const MAX_INPUT_LEN: usize = 256;

pub const BACKSPACE: char = '\u{8}';

/// The identity the shell runs as.
#[derive(Debug, Clone, Copy, PartialEq, Eq, Structural)]
pub enum SessionUser {
    Enos,
    Guest,
}

impl SessionUser {
    pub open spec fn name_spec(self) -> &'static str {
        match self {
            SessionUser::Enos => "enos",
            SessionUser::Guest => "guest",
        }
    }

    pub fn name(self) -> (r: &'static str)
        ensures
            r == self.name_spec(),
    {
        match self {
            SessionUser::Enos => "enos",
            SessionUser::Guest => "guest",
        }
    }

    pub fn uid(self) -> (r: u32)
        ensures
            r == (match self {
                SessionUser::Enos => 0u32,
                SessionUser::Guest => 1000u32,
            }),
    {
        match self {
            SessionUser::Enos => 0,
            SessionUser::Guest => 1000,
        }
    }

    /// Only `enos` is root.
    pub fn is_root(self) -> (r: bool)
        ensures
            r == (self == SessionUser::Enos),
    {
        match self {
            SessionUser::Enos => true,
            SessionUser::Guest => false,
        }
    }

    /// `#` for root, `$` otherwise.
    pub fn prompt_suffix(self) -> (r: &'static str)
        ensures
            r == (if self == SessionUser::Enos {
                "#"
            } else {
                "$"
            }),
    {
        if self.is_root() {
            "#"
        } else {
            "$"
        }
    }
}

/// The shell session: who is logged in.
#[derive(Debug, Clone, Copy)]
pub struct SessionState {
    pub user: SessionUser,
}

impl SessionState {
    /// A session starts as `enos`.
    pub fn new() -> (s: SessionState)
        ensures
            s.user == SessionUser::Enos,
    {
        SessionState { user: SessionUser::Enos }
    }
}

/// What a key press shows on the console, and whether it submitted the line.
pub struct KeyOutcome {
    pub echo: Vec<char>,
    pub submitted: bool,
}

/// The interactive shell's state: the line being typed, the history, the
/// keyboard modifiers and the session.
pub struct Shell {
    input: Vec<char>,
    history: HistoryState,
    keyboard: KeyboardState,
    session: SessionState,
}

/// Abstract state of the shell.
pub ghost struct ShellModel {
    pub input: Seq<char>,
    pub history: HistoryModel,
    pub keyboard: KeyboardState,
    pub user: SessionUser,
}

impl View for Shell {
    type V = ShellModel;

    closed spec fn view(&self) -> ShellModel {
        ShellModel {
            input: self.input@,
            history: self.history@,
            keyboard: self.keyboard,
            user: self.session.user,
        }
    }
}

pub open spec fn shell_wf(m: ShellModel) -> bool {
    history_wf(m.history) && byte_len(m.input) < MAX_INPUT_LEN + 4
}

/// How many characters of `text`, from the `k`-th on, are taken into the
/// line: characters are taken while the line is shorter than the limit.
pub open spec fn fit_len(text: Seq<char>, k: int) -> int
    decreases text.len() - k,
{
    if k < 0 || k >= text.len() || byte_len(text.subrange(0, k)) >= MAX_INPUT_LEN {
        k
    } else {
        fit_len(text, k + 1)
    }
}

/// `n` backspaces, as the console is sent to erase a line of `n` bytes.
pub open spec fn erase(n: nat) -> Seq<char> {
    Seq::new(n, |i: int| BACKSPACE)
}

/// The result of typing the character `c`: Backspace removes the last
/// character (and is echoed only if there was one), newline submits the
/// line, any other character is appended while the line is shorter than
/// 256 bytes. Editing ends history navigation.
pub open spec fn push_char_spec(m: ShellModel, c: char) -> (ShellModel, Seq<char>, bool) {
    if c == BACKSPACE {
        let h = reset_spec(m.history);
        if m.input.len() > 0 {
            (ShellModel { history: h, input: m.input.drop_last(), ..m }, seq![c], false)
        } else {
            (ShellModel { history: h, ..m }, Seq::empty(), false)
        }
    } else if c == '\n' {
        (m, seq![c], true)
    } else if byte_len(m.input) < MAX_INPUT_LEN {
        (ShellModel { history: reset_spec(m.history), input: m.input.push(c), ..m }, seq![c], false)
    } else {
        (m, Seq::empty(), false)
    }
}

/// The line replaced by `text` (cut once 256 bytes are reached), and the
/// echo that erases the old line (one backspace per byte of it) and shows
/// the new one.
pub open spec fn replace_spec(m: ShellModel, text: Seq<char>) -> (ShellModel, Seq<char>) {
    let kept = text.subrange(0, fit_len(text, 0));
    (ShellModel { input: kept, ..m }, erase(byte_len(m.input)) + kept)
}

pub open spec fn history_up_spec(m: ShellModel) -> (ShellModel, Seq<char>) {
    let (h, entry) = previous_spec(m.history, m.input);
    let m2 = ShellModel { history: h, ..m };
    match entry {
        Some(e) => replace_spec(m2, e),
        None => (m2, Seq::empty()),
    }
}

pub open spec fn history_down_spec(m: ShellModel) -> (ShellModel, Seq<char>) {
    let (h, entry) = next_spec(m.history);
    let m2 = ShellModel { history: h, ..m };
    match entry {
        Some(e) => replace_spec(m2, e),
        None => (m2, Seq::empty()),
    }
}

/// One scancode: the keyboard decodes it and the shell acts on the key.
/// Tab types four spaces.
pub open spec fn scancode_step(m: ShellModel, scancode: u8) -> (ShellModel, Seq<char>, bool) {
    let (kb, action) = scancode_spec(m.keyboard, scancode);
    let m1 = ShellModel { keyboard: kb, ..m };
    match action {
        None => (m1, Seq::empty(), false),
        Some(InputAction::Backspace) => push_char_spec(m1, BACKSPACE),
        Some(InputAction::Enter) => push_char_spec(m1, '\n'),
        Some(InputAction::Char(c)) => push_char_spec(m1, c),
        Some(InputAction::HistoryUp) => {
            let (m2, e) = history_up_spec(m1);
            (m2, e, false)
        },
        Some(InputAction::HistoryDown) => {
            let (m2, e) = history_down_spec(m1);
            (m2, e, false)
        },
        Some(InputAction::Tab) => {
            let (a, e1, _) = push_char_spec(m1, ' ');
            let (b, e2, _) = push_char_spec(a, ' ');
            let (c, e3, _) = push_char_spec(b, ' ');
            let (d, e4, _) = push_char_spec(c, ' ');
            (d, e1 + e2 + e3 + e4, false)
        },
    }
}

/// Taking the submitted line: it is trimmed, the input is cleared and the
/// line (if not empty) goes into the history.
pub open spec fn take_line_spec(m: ShellModel) -> (ShellModel, Seq<char>) {
    let line = trim_spec(m.input);
    let h = if line.len() == 0 {
        reset_spec(m.history)
    } else {
        record_spec(m.history, line)
    };
    (ShellModel { input: Seq::empty(), history: h, ..m }, line)
}

impl Shell {
    pub fn new() -> (s: Shell)
        ensures
            s@.input == Seq::<char>::empty(),
            s@.history == (HistoryModel { entries: Seq::empty(), index: None, draft: Seq::empty() }),
            s@.keyboard == (KeyboardState {
                shift_pressed: false,
                caps_lock: false,
                extended_prefix: false,
            }),
            s@.user == SessionUser::Enos,
            shell_wf(s@),
    {
        Shell {
            input: Vec::new(),
            history: HistoryState::new(),
            keyboard: KeyboardState::new(),
            session: SessionState::new(),
        }
    }

    pub fn user(&self) -> (u: SessionUser)
        ensures
            u == self@.user,
    {
        self.session.user
    }

    pub fn is_root(&self) -> (r: bool)
        ensures
            r == (self@.user == SessionUser::Enos),
    {
        self.session.user.is_root()
    }

    pub fn switch_user(&mut self, user: SessionUser)
        ensures
            final(self)@ == (ShellModel { user, ..old(self)@ }),
    {
        self.session.user = user;
    }

    /// The line typed so far.
    pub fn input(&self) -> (r: &Vec<char>)
        ensures
            r@ == self@.input,
    {
        &self.input
    }

    fn replace_input_line(&mut self, text: &[char]) -> (echo: Vec<char>)
        requires
            shell_wf(old(self)@),
        ensures
            (final(self)@, echo@) == replace_spec(old(self)@, text@),
            shell_wf(final(self)@),
    {
        let mut echo: Vec<char> = Vec::new();
        let old_len = text_byte_len(self.input.as_slice());
        let mut i: usize = 0;
        while i < old_len
            invariant
                i <= old_len,
                echo@ == erase(i as nat),
            decreases old_len - i,
        {
            echo.push(BACKSPACE);
            i += 1;
            assert(echo@ =~= erase(i as nat));
        }
        let mut line: Vec<char> = Vec::new();
        let mut line_bytes: usize = 0;
        let mut j: usize = 0;
        while j < text.len() && line_bytes < MAX_INPUT_LEN
            invariant
                j <= text@.len(),
                line@ == text@.subrange(0, j as int),
                line_bytes == byte_len(line@),
                line_bytes < MAX_INPUT_LEN + 4,
                fit_len(text@, j as int) == fit_len(text@, 0),
            decreases text@.len() - j,
        {
            let k = char_byte_len(text[j]);
            proof {
                lemma_byte_len_push(line@, text@[j as int]);
            }
            line.push(text[j]);
            line_bytes = line_bytes + k;
            j += 1;
            assert(line@ =~= text@.subrange(0, j as int));
        }
        assert(fit_len(text@, j as int) == j);
        push_all(&mut echo, line.as_slice());
        self.input = line;
        echo
    }

    pub fn history_up(&mut self) -> (echo: Vec<char>)
        requires
            shell_wf(old(self)@),
        ensures
            (final(self)@, echo@) == history_up_spec(old(self)@),
            shell_wf(final(self)@),
    {
        let current = self.input.clone();
        let previous = self.history.previous(current.as_slice());
        match previous {
            Some(entry) => self.replace_input_line(entry.as_slice()),
            None => Vec::new(),
        }
    }

    pub fn history_down(&mut self) -> (echo: Vec<char>)
        requires
            shell_wf(old(self)@),
        ensures
            (final(self)@, echo@) == history_down_spec(old(self)@),
            shell_wf(final(self)@),
    {
        let next = self.history.next();
        match next {
            Some(entry) => self.replace_input_line(entry.as_slice()),
            None => Vec::new(),
        }
    }

    /// Takes the submitted line for evaluation; see `take_line_spec`.
    pub fn take_command_line(&mut self) -> (line: Vec<char>)
        requires
            shell_wf(old(self)@),
        ensures
            (final(self)@, line@) == take_line_spec(old(self)@),
            shell_wf(final(self)@),
    {
        let line = trim(self.input.as_slice());
        self.input = Vec::new();
        if line.len() == 0 {
            self.history.reset_navigation();
        } else {
            self.history.record(line.as_slice());
        }
        line
    }
}

/// Types the character `c` into the shell's line; see `push_char_spec`.
pub fn push_char(shell: &mut Shell, c: char) -> (r: KeyOutcome)
    requires
        shell_wf(old(shell)@),
    ensures
        (final(shell)@, r.echo@, r.submitted) == push_char_spec(old(shell)@, c),
        shell_wf(final(shell)@),
{
    let mut echo: Vec<char> = Vec::new();
    if c == BACKSPACE {
        shell.history.reset_navigation();
        if shell.input.len() > 0 {
            proof {
                lemma_byte_len_subrange(shell.input@, 0, shell.input@.len() - 1);
            }
            shell.input.pop();
            echo.push(c);
        }
        return KeyOutcome { echo, submitted: false };
    }
    if c == '\n' {
        echo.push(c);
        return KeyOutcome { echo, submitted: true };
    }
    let bytes = text_byte_len(shell.input.as_slice());
    if bytes < MAX_INPUT_LEN {
        proof {
            lemma_byte_len_push(shell.input@, c);
        }
        shell.history.reset_navigation();
        shell.input.push(c);
        echo.push(c);
    }
    KeyOutcome { echo, submitted: false }
}

/// Handles one scancode from the keyboard.
pub fn process_scancode(shell: &mut Shell, scancode: u8) -> (r: KeyOutcome)
    requires
        shell_wf(old(shell)@),
    ensures
        (final(shell)@, r.echo@, r.submitted) == scancode_step(old(shell)@, scancode),
        shell_wf(final(shell)@),
{
    let action = shell.keyboard.decode(scancode);
    match action {
        None => KeyOutcome { echo: Vec::new(), submitted: false },
        Some(InputAction::Backspace) => push_char(shell, BACKSPACE),
        Some(InputAction::Enter) => push_char(shell, '\n'),
        Some(InputAction::Char(c)) => push_char(shell, c),
        Some(InputAction::HistoryUp) => {
            let echo = shell.history_up();
            KeyOutcome { echo, submitted: false }
        },
        Some(InputAction::HistoryDown) => {
            let echo = shell.history_down();
            KeyOutcome { echo, submitted: false }
        },
        Some(InputAction::Tab) => {
            let mut echo: Vec<char> = Vec::new();
            let mut k: usize = 0;
            let ghost m1 = shell@;
            let ghost mut expected: Seq<char> = Seq::empty();
            while k < 4
                invariant
                    k <= 4,
                    shell_wf(shell@),
                    echo@ == expected,
                    ({
                        let (a, e1, _) = push_char_spec(m1, ' ');
                        let (b, e2, _) = push_char_spec(a, ' ');
                        let (c, e3, _) = push_char_spec(b, ' ');
                        let (d, e4, _) = push_char_spec(c, ' ');
                        &&& k == 0 ==> shell@ == m1 && expected == Seq::<char>::empty()
                        &&& k == 1 ==> shell@ == a && expected == e1
                        &&& k == 2 ==> shell@ == b && expected == e1 + e2
                        &&& k == 3 ==> shell@ == c && expected == e1 + e2 + e3
                        &&& k == 4 ==> shell@ == d && expected == e1 + e2 + e3 + e4
                    }),
                decreases 4 - k,
            {
                let out = push_char(shell, ' ');
                push_all(&mut echo, out.echo.as_slice());
                proof {
                    expected = expected + out.echo@;
                }
                k += 1;
            }
            KeyOutcome { echo, submitted: false }
        },
    }
}

} // verus!
