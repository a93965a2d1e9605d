//! What is sent to tmux and to the shell: quoting, the commands built for
//! panes and hooks, and how a pane's `exec` entries are read.
use vstd::prelude::*;
use crate::config::{Pane, SplitDirection, Window};
use crate::paths::{
    expand_path, file_name, is_absolute, join, path_components, path_file_name, path_join, texts,
    tilde_with_home,
};
use crate::text::{
    chars_of, contains_char, decimal, decimal_string, head_and_rest, head_and_rest_of, owned, parse_u64, parse_u64_spec,
    push_char, push_str, split_once, split_once_spec, str_eq, string_of, trim, trimmed,
};

verus! {

/// The names of the shells a pane can be idle in.
pub open spec fn is_shell_name(cmd: Seq<char>) -> bool {
    ||| cmd == "bash"@
    ||| cmd == "zsh"@
    ||| cmd == "fish"@
    ||| cmd == "sh"@
    ||| cmd == "dash"@
    ||| cmd == "ksh"@
    ||| cmd == "tcsh"@
    ||| cmd == "csh"@
    ||| cmd == "nu"@
}

/// Whether `cmd` is the name of a shell.
pub fn is_shell(cmd: &str) -> (r: bool)
    ensures
        r == is_shell_name(cmd@),
{
    str_eq(cmd, "bash") || str_eq(cmd, "zsh") || str_eq(cmd, "fish") || str_eq(cmd, "sh")
        || str_eq(cmd, "dash") || str_eq(cmd, "ksh") || str_eq(cmd, "tcsh") || str_eq(cmd, "csh")
        || str_eq(cmd, "nu")
}

/// How one character is written inside single quotes: a quote closes the
/// quoting, is escaped, and reopens it.
pub open spec fn escaped_piece(c: char) -> Seq<char> {
    if c == '\'' {
        seq!['\'', '\\', '\'', '\'']
    } else {
        seq![c]
    }
}

/// `s` with every single quote escaped.
pub open spec fn escape_quotes(s: Seq<char>) -> Seq<char>
    decreases s.len(),
{
    if s.len() == 0 {
        Seq::empty()
    } else {
        escaped_piece(s[0]) + escape_quotes(s.drop_first())
    }
}

/// `s` quoted for a POSIX shell.
pub open spec fn single_quoted(s: Seq<char>) -> Seq<char> {
    seq!['\''] + escape_quotes(s) + seq!['\'']
}

proof fn lemma_escape_push(s: Seq<char>, c: char)
    ensures
        escape_quotes(s.push(c)) == escape_quotes(s) + escaped_piece(c),
    decreases s.len(),
{
    if s.len() == 0 {
        assert(s.push(c).drop_first() =~= Seq::<char>::empty());
        assert(escape_quotes(Seq::<char>::empty()) == Seq::<char>::empty());
        assert(escape_quotes(s) == Seq::<char>::empty());
        assert(escaped_piece(c) + Seq::<char>::empty() =~= escaped_piece(c));
        assert(escape_quotes(s.push(c)) =~= escaped_piece(c));
    } else {
        assert(s.push(c).drop_first() =~= s.drop_first().push(c));
        lemma_escape_push(s.drop_first(), c);
        assert(escape_quotes(s.push(c)) =~= escape_quotes(s) + escaped_piece(c));
    }
}

/// Quotes `s` so that a POSIX shell reads it back as one word.
pub fn shell_escape(s: &str) -> (r: String)
    ensures
        r@ == single_quoted(s@),
{
    let v = chars_of(s);
    let mut r = String::new();
    push_char(&mut r, '\'');
    let mut i: usize = 0;
    while i < v.len()
        invariant
            v@ == s@,
            i <= v.len(),
            r@ == seq!['\''] + escape_quotes(v@.take(i as int)),
        decreases v.len() - i,
    {
        let c = v[i];
        if c == '\'' {
            push_char(&mut r, '\'');
            push_char(&mut r, '\\');
            push_char(&mut r, '\'');
            push_char(&mut r, '\'');
        } else {
            push_char(&mut r, c);
        }
        proof {
            assert(v@.take(i + 1) =~= v@.take(i as int).push(c));
            lemma_escape_push(v@.take(i as int), c);
        }
        i = i + 1;
    }
    push_char(&mut r, '\'');
    assert(v@.take(v.len() as int) =~= s@);
    r
}

/// Characters that a POSIX shell does not take as part of a word when they
/// stand unquoted.
pub open spec fn is_shell_special(c: char) -> bool {
    ||| c == ' '
    ||| c == '\t'
    ||| c == '\n'
    ||| c == '|'
    ||| c == '&'
    ||| c == ';'
    ||| c == '<'
    ||| c == '>'
    ||| c == '('
    ||| c == ')'
    ||| c == '$'
    ||| c == '`'
    ||| c == '"'
    ||| c == '*'
    ||| c == '?'
    ||| c == '['
    ||| c == '#'
    ||| c == '~'
}

/// How a POSIX shell reads the rest of a word inside single quotes: up to
/// the closing quote every character stands for itself.
pub open spec fn sh_quoted(t: Seq<char>) -> Option<Seq<char>>
    decreases t.len(),
{
    if t.len() == 0 {
        None
    } else if t[0] == '\'' {
        sh_word(t.drop_first())
    } else {
        match sh_quoted(t.drop_first()) {
            Some(r) => Some(seq![t[0]] + r),
            None => None,
        }
    }
}

/// How a POSIX shell reads `t` as one word made of plain characters,
/// backslash escapes and single-quoted text; `None` where `t` is not such a
/// word.
pub open spec fn sh_word(t: Seq<char>) -> Option<Seq<char>>
    decreases t.len(),
{
    if t.len() == 0 {
        Some(Seq::empty())
    } else if t[0] == '\'' {
        sh_quoted(t.drop_first())
    } else if t[0] == '\\' {
        if t.len() >= 2 {
            match sh_word(t.skip(2)) {
                Some(r) => Some(seq![t[1]] + r),
                None => None,
            }
        } else {
            None
        }
    } else if is_shell_special(t[0]) {
        None
    } else {
        match sh_word(t.drop_first()) {
            Some(r) => Some(seq![t[0]] + r),
            None => None,
        }
    }
}

proof fn lemma_quoted_reads_back(s: Seq<char>, rest: Seq<char>)
    ensures
        sh_quoted(escape_quotes(s) + seq!['\''] + rest) == match sh_word(rest) {
            Some(r) => Some(s + r),
            None => None::<Seq<char>>,
        },
    decreases s.len(),
{
    let t = escape_quotes(s) + seq!['\''] + rest;
    if s.len() == 0 {
        assert(escape_quotes(s) == Seq::<char>::empty());
        assert(t =~= seq!['\''] + rest);
        assert(t.drop_first() =~= rest);
        assert(t[0] == '\'');
        match sh_word(rest) {
            Some(r) => assert(s + r =~= r),
            None => {},
        }
    } else {
        let c = s[0];
        let s1 = s.drop_first();
        let x = escape_quotes(s1) + seq!['\''] + rest;
        lemma_quoted_reads_back(s1, rest);
        if c == '\'' {
            assert(t =~= seq!['\'', '\\', '\'', '\''] + x);
            let t1 = t.drop_first();
            assert(t1 =~= seq!['\\', '\'', '\''] + x);
            assert(t1.skip(2) =~= seq!['\''] + x);
            assert((seq!['\''] + x).drop_first() =~= x);
            assert(t[0] == '\'');
            assert(sh_quoted(t) == sh_word(t1));
            assert(t1[0] == '\\');
            assert(t1[1] == '\'');
            assert(sh_word(seq!['\''] + x) == sh_quoted(x));
            assert(sh_word(t1) == match sh_word(t1.skip(2)) {
                Some(r) => Some(seq!['\''] + r),
                None => None::<Seq<char>>,
            });
            match sh_word(rest) {
                Some(r) => assert(seq![c] + (s1 + r) =~= s + r),
                None => {},
            }
        } else {
            assert(t =~= seq![c] + x);
            assert(t.drop_first() =~= x);
            assert(t[0] == c);
            match sh_word(rest) {
                Some(r) => assert(seq![c] + (s1 + r) =~= s + r),
                None => {},
            }
        }
    }
}

/// A POSIX shell reads what `shell_escape` makes of `s` back as `s`,
/// whatever characters `s` holds.
pub proof fn shell_escape_reads_back(s: Seq<char>)
    ensures
        sh_word(single_quoted(s)) == Some(s),
{
    let t = single_quoted(s);
    lemma_quoted_reads_back(s, Seq::empty());
    assert(t.drop_first() =~= escape_quotes(s) + seq!['\''] + Seq::<char>::empty());
    assert(s + Seq::<char>::empty() =~= s);
}

/// `s` with every `.` replaced by `_`.
pub open spec fn dots_to_underscores(s: Seq<char>) -> Seq<char> {
    s.map_values(|c: char| if c == '.' { '_' } else { c })
}

/// The tmux session name for a project: its directory name with dots
/// replaced by underscores (tmux does not accept dots there). `None` where
/// the path has no last component.
pub fn session_name(path: &str) -> (r: Option<String>)
    ensures
        match path_file_name(path@) {
            Some(n) => r matches Some(name) && name@ == dots_to_underscores(n),
            None => r is None,
        },
        r matches Some(name) ==> path_components(path@).len() > 0 && name@ == dots_to_underscores(
            path_components(path@).last(),
        ),
{
    match file_name(path) {
        Some(n) => {
            let v = chars_of(n.as_str());
            let mut w: Vec<char> = Vec::new();
            let mut i: usize = 0;
            while i < v.len()
                invariant
                    i <= v.len(),
                    w@ == dots_to_underscores(v@.take(i as int)),
                decreases v.len() - i,
            {
                w.push(if v[i] == '.' { '_' } else { v[i] });
                assert(dots_to_underscores(v@.take(i + 1)) =~= dots_to_underscores(
                    v@.take(i as int),
                ).push(if v@[i as int] == '.' { '_' } else { v@[i as int] }));
                i = i + 1;
            }
            assert(v@.take(v.len() as int) =~= v@);
            Some(string_of(&w))
        },
        None => None,
    }
}

/// The tmux flag that lays a window's top-level panes out: stacked (`-v`)
/// when the first pane asks for a horizontal split, side by side (`-h`)
/// otherwise.
pub fn window_split_arg(wc: &Window) -> (r: &'static str)
    ensures
        (wc.panes@.len() > 0 && wc.panes@[0].split == Some(SplitDirection::Horizontal)) ==> r@
            == "-v"@,
        !(wc.panes@.len() > 0 && wc.panes@[0].split == Some(SplitDirection::Horizontal)) ==> r@
            == "-h"@,
{
    if wc.panes.len() > 0 {
        match wc.panes[0].split {
            Some(SplitDirection::Horizontal) => {
                return "-v";
            },
            _ => {},
        }
    }
    "-h"
}

/// The tmux flag that lays a pane's children out: side by side (`-h`) for a
/// vertical split, stacked (`-v`) otherwise.
pub fn pane_split_arg(pane: &Pane) -> (r: &'static str)
    ensures
        pane.split == Some(SplitDirection::Vertical) ==> r@ == "-h"@,
        pane.split != Some(SplitDirection::Vertical) ==> r@ == "-v"@,
{
    match pane.split {
        Some(SplitDirection::Vertical) => "-h",
        _ => "-v",
    }
}

/// Where a script named in an `exec` entry or a hook lives: `~` is expanded;
/// an absolute result is kept; a relative one with a `/` in it is taken
/// from the directory of the configuration file; a bare command name is
/// left for `PATH` lookup.
pub open spec fn exec_path_spec(s: Seq<char>, config_dir: Seq<char>, home: Option<Seq<char>>) -> Seq<
    char,
> {
    let e = tilde_with_home(s, home);
    if e.len() > 0 && e[0] == '/' {
        e
    } else if s.contains('/') {
        path_join(config_dir, e)
    } else {
        s
    }
}

/// Resolves the script of an `exec` entry or hook (see `exec_path_spec`);
/// the home directory is whatever the environment gives.
pub fn expand_exec_path(s: &str, config_dir: &str) -> (r: String)
    ensures
        exists|h: Option<Seq<char>>| r@ == exec_path_spec(s@, config_dir@, h),
{
    let expanded = expand_path(s);
    let ghost h = choose|h: Option<Seq<char>>| expanded@ == tilde_with_home(s@, h);
    if is_absolute(expanded.as_str()) {
        assert(expanded@ == exec_path_spec(s@, config_dir@, h));
        expanded
    } else if contains_char(s, '/') {
        let r = join(config_dir, expanded.as_str());
        assert(r@ == exec_path_spec(s@, config_dir@, h));
        r
    } else {
        let r = owned(s);
        assert(r@ == exec_path_spec(s@, config_dir@, h));
        r
    }
}

/// A command line whose first word is a script: the script resolved as
/// `exec_path_spec` says, followed by the rest of the line.
pub open spec fn command_spec(cmd: Seq<char>, config_dir: Seq<char>, home: Option<Seq<char>>) -> Seq<
    char,
> {
    let (head, rest) = head_and_rest(cmd, ' ');
    let e = exec_path_spec(head, config_dir, home);
    if rest.len() == 0 {
        e
    } else {
        e + seq![' '] + rest
    }
}

/// Resolves the script at the start of a command line.
pub fn expand_command(cmd: &str, config_dir: &str) -> (r: String)
    ensures
        exists|h: Option<Seq<char>>| r@ == command_spec(cmd@, config_dir@, h),
{
    let (head, rest) = head_and_rest_of(cmd, ' ');
    let mut e = expand_exec_path(head.as_str(), config_dir);
    let ghost h = choose|h: Option<Seq<char>>| e@ == exec_path_spec(head@, config_dir@, h);
    let ghost e0 = e@;
    if rest.as_str().is_empty() {
        assert(e@ == command_spec(cmd@, config_dir@, h));
        e
    } else {
        push_char(&mut e, ' ');
        push_str(&mut e, rest.as_str());
        proof {
            assert(rest@.len() != 0);
            assert(e@ =~= e0 + seq![' '] + rest@);
        }
        assert(e@ == command_spec(cmd@, config_dir@, h));
        e
    }
}

/// The environment assignments that tell a script where it runs.
pub open spec fn env_prefix(path: Seq<char>, session: Seq<char>, window: Seq<char>) -> Seq<char> {
    "SEELA_SESSION_PATH="@ + single_quoted(path) + " SEELA_SESSION_NAME="@ + single_quoted(session)
        + " SEELA_WINDOW_NAME="@ + single_quoted(window)
}

fn push_env_prefix(r: &mut String, path: &str, session: &str, window: &str)
    ensures
        final(r)@ == old(r)@ + env_prefix(path@, session@, window@),
{
    push_str(r, "SEELA_SESSION_PATH=");
    push_str(r, shell_escape(path).as_str());
    push_str(r, " SEELA_SESSION_NAME=");
    push_str(r, shell_escape(session).as_str());
    push_str(r, " SEELA_WINDOW_NAME=");
    push_str(r, shell_escape(window).as_str());
    assert(r@ =~= old(r)@ + env_prefix(path@, session@, window@));
}

/// The line typed into a pane for an `@run` entry.
pub open spec fn run_line_spec(
    path: Seq<char>,
    session: Seq<char>,
    window: Seq<char>,
    pane: Seq<char>,
    command: Seq<char>,
) -> Seq<char> {
    env_prefix(path, session, window) + " SEELA_PANE_ID="@ + single_quoted(pane) + seq![' ']
        + command + seq!['\n']
}

/// The line typed into a pane for an `@run` entry: `command` with the
/// session's path and name, the window's name and the pane's id in its
/// environment.
pub fn run_command_line(path: &str, session: &str, window: &str, pane: &str, command: &str) -> (r:
    String)
    ensures
        r@ == run_line_spec(path@, session@, window@, pane@, command@),
{
    let mut r = String::new();
    push_env_prefix(&mut r, path, session, window);
    push_str(&mut r, " SEELA_PANE_ID=");
    push_str(&mut r, shell_escape(pane).as_str());
    push_char(&mut r, ' ');
    push_str(&mut r, command);
    push_char(&mut r, '\n');
    assert(r@ =~= run_line_spec(path@, session@, window@, pane@, command@));
    r
}

/// The shell command a window hook runs.
pub open spec fn hook_line_spec(
    path: Seq<char>,
    session: Seq<char>,
    window: Seq<char>,
    command: Seq<char>,
) -> Seq<char> {
    env_prefix(path, session, window) + seq![' '] + command
}

/// The shell command a window hook runs: `command` with the session's path
/// and name and the window's name in its environment.
pub fn hook_command_line(path: &str, session: &str, window: &str, command: &str) -> (r: String)
    ensures
        r@ == hook_line_spec(path@, session@, window@, command@),
{
    let mut r = String::new();
    push_env_prefix(&mut r, path, session, window);
    push_char(&mut r, ' ');
    push_str(&mut r, command);
    assert(r@ =~= hook_line_spec(path@, session@, window@, command@));
    r
}

/// What is typed for an `@confirm` entry: this program, asked to run the
/// command after a prompt; where the program's own path is not known, the
/// entry as it was written.
pub open spec fn confirm_line_spec(exe: Option<Seq<char>>, value: Seq<char>, original: Seq<char>) -> Seq<
    char,
> {
    match exe {
        Some(e) => e + " --run-command "@ + single_quoted(value),
        None => original,
    }
}

/// What is typed for an `@confirm` entry.
pub fn confirm_command_line(exe: Option<&str>, value: &str, original: &str) -> (r: String)
    ensures
        r@ == confirm_line_spec(
            match exe {
                Some(e) => Some(e@),
                None => None,
            },
            value@,
            original@,
        ),
{
    match exe {
        Some(e) => {
            let mut r = owned(e);
            push_str(&mut r, " --run-command ");
            push_str(&mut r, shell_escape(value).as_str());
            assert(r@ =~= e@ + " --run-command "@ + single_quoted(value@));
            r
        },
        None => owned(original),
    }
}

/// What one `exec` entry of a pane asks for.
#[derive(Debug, PartialEq, Eq)]
pub enum ExecStep {
    /// Nothing (an empty entry, or a wait that cannot be read).
    Skip,
    /// `@confirm cmd`: run `cmd` after asking.
    Confirm(String),
    /// `@run script args`: run a script with the session's environment.
    Run(String),
    /// `@wait n`: pause for `n` seconds.
    WaitSeconds(u64),
    /// `@wait-milli n` or `@wait-ms n`: pause for `n` milliseconds.
    WaitMillis(u64),
    /// `@send-key k` or `@sk k`: send tmux key `k`.
    SendKey(String),
    /// Anything else: type the entry as written, then Enter.
    Type(String),
}

/// The meaning of an `ExecStep`.
pub enum ExecStepSpec {
    Skip,
    Confirm(Seq<char>),
    Run(Seq<char>),
    WaitSeconds(u64),
    WaitMillis(u64),
    SendKey(Seq<char>),
    Type(Seq<char>),
}

impl View for ExecStep {
    type V = ExecStepSpec;

    open spec fn view(&self) -> ExecStepSpec {
        match self {
            ExecStep::Skip => ExecStepSpec::Skip,
            ExecStep::Confirm(s) => ExecStepSpec::Confirm(s@),
            ExecStep::Run(s) => ExecStepSpec::Run(s@),
            ExecStep::WaitSeconds(n) => ExecStepSpec::WaitSeconds(*n),
            ExecStep::WaitMillis(n) => ExecStepSpec::WaitMillis(*n),
            ExecStep::SendKey(s) => ExecStepSpec::SendKey(s@),
            ExecStep::Type(s) => ExecStepSpec::Type(s@),
        }
    }
}

/// How an `exec` entry is read: surrounding whitespace is ignored; an empty
/// entry does nothing; an entry whose first word is an operator
/// (`@confirm`, `@run`, `@wait`, `@wait-milli`, `@wait-ms`, `@send-key`,
/// `@sk`) followed by a space applies it to the rest; anything else is typed
/// as written.
pub open spec fn exec_step_spec(cmd: Seq<char>) -> ExecStepSpec {
    let t = trimmed(cmd);
    if t.len() == 0 {
        ExecStepSpec::Skip
    } else {
        match split_once_spec(t, ' ') {
            Some((kw, val)) => {
                if kw == "@confirm"@ {
                    ExecStepSpec::Confirm(val)
                } else if kw == "@run"@ {
                    ExecStepSpec::Run(val)
                } else if kw == "@wait"@ {
                    match parse_u64_spec(val) {
                        Some(n) => ExecStepSpec::WaitSeconds(n),
                        None => ExecStepSpec::Skip,
                    }
                } else if kw == "@wait-milli"@ || kw == "@wait-ms"@ {
                    match parse_u64_spec(val) {
                        Some(n) => ExecStepSpec::WaitMillis(n),
                        None => ExecStepSpec::Skip,
                    }
                } else if kw == "@send-key"@ || kw == "@sk"@ {
                    ExecStepSpec::SendKey(val)
                } else {
                    ExecStepSpec::Type(cmd)
                }
            },
            None => ExecStepSpec::Type(cmd),
        }
    }
}

/// Reads one `exec` entry of a pane.
pub fn parse_exec_step(cmd: &str) -> (r: ExecStep)
    ensures
        r@ == exec_step_spec(cmd@),
{
    let t = trim(cmd);
    if t.as_str().is_empty() {
        return ExecStep::Skip;
    }
    match split_once(t.as_str(), ' ') {
        Some((kw, val)) => {
            let k = kw.as_str();
            if str_eq(k, "@confirm") {
                ExecStep::Confirm(val)
            } else if str_eq(k, "@run") {
                ExecStep::Run(val)
            } else if str_eq(k, "@wait") {
                match parse_u64(val.as_str()) {
                    Some(n) => ExecStep::WaitSeconds(n),
                    None => ExecStep::Skip,
                }
            } else if str_eq(k, "@wait-milli") || str_eq(k, "@wait-ms") {
                match parse_u64(val.as_str()) {
                    Some(n) => ExecStep::WaitMillis(n),
                    None => ExecStep::Skip,
                }
            } else if str_eq(k, "@send-key") || str_eq(k, "@sk") {
                ExecStep::SendKey(val)
            } else {
                ExecStep::Type(owned(cmd))
            }
        },
        None => ExecStep::Type(owned(cmd)),
    }
}

/// One thing done to a pane while its commands are sent.
#[derive(Debug, PartialEq, Eq)]
pub enum PaneAction {
    /// Wait until the pane's shell is idle, or the wait times out.
    WaitForShell,
    /// Send a key, by tmux's name for it.
    SendKey(String),
    /// Type text into the pane.
    Type(String),
    /// Load text into tmux's paste buffer and paste it into the pane.
    Paste(String),
    /// Pause for this many milliseconds.
    PauseMillis(u64),
    /// Pause for this many seconds.
    PauseSeconds(u64),
}

/// What a `PaneAction` stands for.
pub enum PaneActionView {
    WaitForShell,
    SendKey(Seq<char>),
    Type(Seq<char>),
    Paste(Seq<char>),
    PauseMillis(u64),
    PauseSeconds(u64),
}

impl View for PaneAction {
    type V = PaneActionView;

    open spec fn view(&self) -> PaneActionView {
        match self {
            PaneAction::WaitForShell => PaneActionView::WaitForShell,
            PaneAction::SendKey(k) => PaneActionView::SendKey(k@),
            PaneAction::Type(t) => PaneActionView::Type(t@),
            PaneAction::Paste(t) => PaneActionView::Paste(t@),
            PaneAction::PauseMillis(n) => PaneActionView::PauseMillis(*n),
            PaneAction::PauseSeconds(n) => PaneActionView::PauseSeconds(*n),
        }
    }
}

/// The views of a list of pane actions.
pub open spec fn action_views(v: Seq<PaneAction>) -> Seq<PaneActionView> {
    v.map_values(|a: PaneAction| a@)
}

/// What is done to a pane before its commands: where its shell did not
/// become idle, Ctrl-C and a key delay; then a reset (`-R`), clearing the
/// line (`C-u`) and a key delay.
pub open spec fn preamble_spec(idle: bool, key_delay: u64) -> Seq<PaneActionView> {
    let start: Seq<PaneActionView> = if idle {
        Seq::empty()
    } else {
        seq![PaneActionView::SendKey("C-c"@), PaneActionView::PauseMillis(key_delay)]
    };
    start + seq![
        PaneActionView::SendKey("-R"@),
        PaneActionView::SendKey("C-u"@),
        PaneActionView::PauseMillis(key_delay),
    ]
}

/// Typing a line: wait for the shell, type it, a key delay, Enter, and
/// the delay after Enter.
pub open spec fn typed_spec(text: Seq<char>, key_delay: u64, action_delay: u64) -> Seq<
    PaneActionView,
> {
    seq![
        PaneActionView::WaitForShell,
        PaneActionView::Type(text),
        PaneActionView::PauseMillis(key_delay),
        PaneActionView::SendKey("C-m"@),
        PaneActionView::PauseMillis(action_delay),
    ]
}

/// What one `exec` entry does to its pane: nothing for an empty entry; the
/// `@confirm` line or the entry itself typed; for `@run`, the script's line
/// with the session's environment pasted once the shell is idle; a pause
/// for `@wait` and `@wait-milli`; a key delay and the key for `@send-key`.
/// `home` is the home directory `~` expands to in an `@run` script.
pub open spec fn entry_actions_spec(
    entry: Seq<char>,
    exe: Option<Seq<char>>,
    path: Seq<char>,
    session: Seq<char>,
    window: Seq<char>,
    pane: Seq<char>,
    config_dir: Seq<char>,
    key_delay: u64,
    action_delay: u64,
    home: Option<Seq<char>>,
) -> Seq<PaneActionView> {
    match exec_step_spec(entry) {
        ExecStepSpec::Skip => Seq::empty(),
        ExecStepSpec::Confirm(v) => typed_spec(
            confirm_line_spec(exe, v, entry),
            key_delay,
            action_delay,
        ),
        ExecStepSpec::Run(v) => seq![
            PaneActionView::WaitForShell,
            PaneActionView::Paste(
                run_line_spec(path, session, window, pane, command_spec(v, config_dir, home)),
            ),
            PaneActionView::PauseMillis(action_delay),
        ],
        ExecStepSpec::WaitSeconds(n) => seq![PaneActionView::PauseSeconds(n)],
        ExecStepSpec::WaitMillis(n) => seq![PaneActionView::PauseMillis(n)],
        ExecStepSpec::SendKey(k) => seq![PaneActionView::PauseMillis(key_delay), PaneActionView::SendKey(k)],
        ExecStepSpec::Type(t) => typed_spec(t, key_delay, action_delay),
    }
}

/// What is done to a pane before its commands are sent; `idle` tells
/// whether its shell became idle in time.
pub fn pane_preamble(idle: bool, key_delay: u64) -> (r: Vec<PaneAction>)
    ensures
        action_views(r@) == preamble_spec(idle, key_delay),
{
    let mut r: Vec<PaneAction> = Vec::new();
    if !idle {
        r.push(PaneAction::SendKey(owned("C-c")));
        r.push(PaneAction::PauseMillis(key_delay));
    }
    r.push(PaneAction::SendKey(owned("-R")));
    r.push(PaneAction::SendKey(owned("C-u")));
    r.push(PaneAction::PauseMillis(key_delay));
    assert(action_views(r@) =~= preamble_spec(idle, key_delay));
    r
}

fn typed_actions(text: String, key_delay: u64, action_delay: u64) -> (r: Vec<PaneAction>)
    ensures
        action_views(r@) == typed_spec(text@, key_delay, action_delay),
{
    let ghost t = text@;
    let mut r: Vec<PaneAction> = Vec::new();
    r.push(PaneAction::WaitForShell);
    r.push(PaneAction::Type(text));
    r.push(PaneAction::PauseMillis(key_delay));
    r.push(PaneAction::SendKey(owned("C-m")));
    r.push(PaneAction::PauseMillis(action_delay));
    assert(action_views(r@) =~= typed_spec(t, key_delay, action_delay));
    r
}

/// The text of an optional string slice.
pub open spec fn str_text(s: Option<&str>) -> Option<Seq<char>> {
    match s {
        Some(t) => Some(t@),
        None => None,
    }
}

/// What one `exec` entry of a task does to the pane `pane`; `exe` is this
/// program's own path where known. The home directory that `~` expands to
/// comes from the environment.
pub fn entry_actions(
    entry: &str,
    exe: Option<&str>,
    path: &str,
    session: &str,
    window: &str,
    pane: &str,
    config_dir: &str,
    key_delay: u64,
    action_delay: u64,
) -> (r: Vec<PaneAction>)
    ensures
        exists|h: Option<Seq<char>>|
            action_views(r@) == #[trigger] entry_actions_spec(
                entry@,
                str_text(exe),
                path@,
                session@,
                window@,
                pane@,
                config_dir@,
                key_delay,
                action_delay,
                h,
            ),
{
    let ghost ev = str_text(exe);
    let step = parse_exec_step(entry);
    let mut r: Vec<PaneAction> = Vec::new();
    match step {
        ExecStep::Skip => {
            assert(action_views(r@) =~= entry_actions_spec(
                entry@, ev, path@, session@, window@, pane@, config_dir@, key_delay, action_delay, None,
            ));
            r
        },
        ExecStep::Confirm(value) => {
            let line = confirm_command_line(exe, value.as_str(), entry);
            let r = typed_actions(line, key_delay, action_delay);
            assert(action_views(r@) == entry_actions_spec(
                entry@, ev, path@, session@, window@, pane@, config_dir@, key_delay, action_delay, None,
            ));
            r
        },
        ExecStep::Run(value) => {
            let expanded = expand_command(value.as_str(), config_dir);
            let ghost h = choose|h: Option<Seq<char>>| expanded@ == command_spec(value@, config_dir@, h);
            let line = run_command_line(path, session, window, pane, expanded.as_str());
            let ghost lv = line@;
            r.push(PaneAction::WaitForShell);
            r.push(PaneAction::Paste(line));
            r.push(PaneAction::PauseMillis(action_delay));
            assert(action_views(r@) =~= entry_actions_spec(
                entry@, ev, path@, session@, window@, pane@, config_dir@, key_delay, action_delay, h,
            ));
            r
        },
        ExecStep::WaitSeconds(n) => {
            r.push(PaneAction::PauseSeconds(n));
            assert(action_views(r@) =~= entry_actions_spec(
                entry@, ev, path@, session@, window@, pane@, config_dir@, key_delay, action_delay, None,
            ));
            r
        },
        ExecStep::WaitMillis(n) => {
            r.push(PaneAction::PauseMillis(n));
            assert(action_views(r@) =~= entry_actions_spec(
                entry@, ev, path@, session@, window@, pane@, config_dir@, key_delay, action_delay, None,
            ));
            r
        },
        ExecStep::SendKey(k) => {
            let ghost kv = k@;
            r.push(PaneAction::PauseMillis(key_delay));
            r.push(PaneAction::SendKey(k));
            assert(action_views(r@) =~= entry_actions_spec(
                entry@, ev, path@, session@, window@, pane@, config_dir@, key_delay, action_delay, None,
            ));
            r
        },
        ExecStep::Type(t) => {
            let r = typed_actions(t, key_delay, action_delay);
            assert(action_views(r@) == entry_actions_spec(
                entry@, ev, path@, session@, window@, pane@, config_dir@, key_delay, action_delay, None,
            ));
            r
        },
    }
}

/// The wait between two looks at whether a pane's shell is idle, in
/// milliseconds.
pub const SHELL_POLL_MS: u64 = 50;

/// What to do while waiting for a pane's shell to be idle.
#[derive(Debug, Clone, Copy, PartialEq, Eq)]
pub enum ShellPoll {
    /// The pane runs a shell: go on.
    Ready,
    /// The wait has lasted `timeout` milliseconds: give up.
    TimedOut,
    /// Wait `SHELL_POLL_MS` more; the time waited is then the value held.
    Wait(u64),
}

/// One look at a pane while waiting for its shell: `current` is the
/// command that tmux says runs in it, `elapsed` the time waited so far.
pub fn poll_shell(current: Option<&str>, elapsed: u64, timeout: u64) -> (r: ShellPoll)
    requires
        elapsed < timeout ==> elapsed + SHELL_POLL_MS <= u64::MAX,
    ensures
        r == poll_result(current, elapsed, timeout),
{
    match current {
        Some(c) => {
            if is_shell(c) {
                return ShellPoll::Ready;
            }
        },
        None => {},
    }
    if elapsed >= timeout {
        ShellPoll::TimedOut
    } else {
        ShellPoll::Wait(elapsed + SHELL_POLL_MS)
    }
}

/// How many more times a wait that has lasted `elapsed` milliseconds out of
/// `timeout` is told to wait, each wait being `SHELL_POLL_MS` (50) long.
pub open spec fn waits_left(elapsed: int, timeout: int) -> int
    decreases timeout - elapsed + 50,
{
    if elapsed >= timeout {
        0
    } else {
        1 + waits_left(elapsed + 50, timeout)
    }
}

proof fn lemma_waits_left(elapsed: int, timeout: int)
    requires
        0 <= elapsed,
    ensures
        waits_left(elapsed, timeout) == (if elapsed >= timeout {
            0
        } else {
            (timeout - elapsed + 49) / 50
        }),
    decreases timeout - elapsed + 50,
{
    if elapsed < timeout {
        lemma_waits_left(elapsed + 50, timeout);
    }
}

/// Waiting for a shell is bounded: a wait that starts at 0 is told to wait
/// at most `ceil(timeout / 50)` times, so it looks at the pane at most one
/// time more than that; each wait it is told brings it one closer to the
/// end.
pub proof fn shell_wait_is_bounded(current: Option<&str>, elapsed: u64, timeout: u64)
    requires
        elapsed < timeout ==> elapsed + SHELL_POLL_MS <= u64::MAX,
    ensures
        waits_left(0, timeout as int) == (timeout as int + 49) / 50,
        ({
            let r = poll_result(current, elapsed, timeout);
            r matches ShellPoll::Wait(next) ==> next == elapsed + SHELL_POLL_MS && waits_left(
                next as int,
                timeout as int,
            ) + 1 == waits_left(elapsed as int, timeout as int)
        }),
        poll_result(current, elapsed, timeout) is TimedOut ==> waits_left(
            elapsed as int,
            timeout as int,
        ) == 0,
{
    lemma_waits_left(0, timeout as int);
}

/// What `poll_shell` answers (see its contract).
pub open spec fn poll_result(current: Option<&str>, elapsed: u64, timeout: u64) -> ShellPoll {
    if (match current {
        Some(c) => is_shell_name(c@),
        None => false,
    }) {
        ShellPoll::Ready
    } else if elapsed >= timeout {
        ShellPoll::TimedOut
    } else {
        ShellPoll::Wait((elapsed + SHELL_POLL_MS) as u64)
    }
}

/// What tmux printed, read as the name of the command running in a pane:
/// trimmed, and `None` when nothing is left.
pub fn current_command(stdout: &str) -> (r: Option<String>)
    ensures
        match r {
            Some(c) => c@ == trimmed(stdout@) && c@.len() > 0,
            None => trimmed(stdout@).len() == 0,
        },
{
    let t = trim(stdout);
    if t.as_str().is_empty() {
        None
    } else {
        Some(t)
    }
}

/// A tmux command line that this program runs.
#[derive(Debug, PartialEq, Eq)]
pub enum TmuxCommand {
    /// Whether a session exists.
    HasSession { name: String },
    /// Removes a session.
    KillSession { name: String },
    /// A detached session with one shell, started in `dir`.
    NewPlainSession { name: String, dir: String },
    /// Moves the current client to a session.
    SwitchClient { name: String },
    /// Attaches the terminal to a session.
    AttachSession { name: String },
    /// A detached session whose first window is `window`; prints its pane id.
    NewSessionWindow { session: String, window: String, dir: String },
    /// Another window of the session; prints its pane id.
    NewWindow { session: String, window: String, dir: String },
    /// Splits pane `target`, the new pane taking `percent` of the space;
    /// prints its pane id.
    SplitWindow { flag: String, percent: u32, target: String, dir: String },
    /// Sends a key (by tmux's key name) to a pane.
    SendKey { target: String, key: String },
    /// Types text into a pane.
    SendLiteral { target: String, text: String },
    /// Reads tmux's paste buffer from standard input.
    LoadBuffer,
    /// Pastes tmux's paste buffer into a pane.
    PasteBuffer { target: String },
    /// Makes a window the current one.
    SelectWindow { session: String, window: String },
    /// Prints the command running in a pane.
    PaneCommand { target: String },
}

/// The format that makes tmux print a new pane's id.
pub open spec fn print_pane_id() -> Seq<Seq<char>> {
    seq!["-P"@, "-F"@, "#{pane_id}"@]
}

/// The arguments passed to `tmux` for a command.
pub open spec fn tmux_args(c: TmuxCommand) -> Seq<Seq<char>> {
    match c {
        TmuxCommand::HasSession { name } => seq!["has-session"@, "-t"@, name@],
        TmuxCommand::KillSession { name } => seq!["kill-session"@, "-t"@, name@],
        TmuxCommand::NewPlainSession { name, dir } => seq![
            "new-session"@,
            "-d"@,
            "-s"@,
            name@,
            "-c"@,
            dir@,
        ],
        TmuxCommand::SwitchClient { name } => seq!["switch-client"@, "-t"@, name@],
        TmuxCommand::AttachSession { name } => seq!["attach-session"@, "-t"@, name@],
        TmuxCommand::NewSessionWindow { session, window, dir } => seq![
            "new-session"@,
            "-d"@,
            "-s"@,
            session@,
            "-n"@,
            window@,
            "-c"@,
            dir@,
        ] + print_pane_id(),
        TmuxCommand::NewWindow { session, window, dir } => seq![
            "new-window"@,
            "-a"@,
            "-t"@,
            session@,
            "-n"@,
            window@,
            "-c"@,
            dir@,
        ] + print_pane_id(),
        TmuxCommand::SplitWindow { flag, percent, target, dir } => seq![
            "split-window"@,
            "-d"@,
            flag@,
            "-l"@,
            decimal(percent as nat).push('%'),
            "-t"@,
            target@,
            "-c"@,
            dir@,
        ] + print_pane_id(),
        TmuxCommand::SendKey { target, key } => seq!["send-keys"@, "-t"@, target@, key@],
        TmuxCommand::SendLiteral { target, text } => seq![
            "send-keys"@,
            "-t"@,
            target@,
            "-l"@,
            text@,
        ],
        TmuxCommand::LoadBuffer => seq!["load-buffer"@, "-"@],
        TmuxCommand::PasteBuffer { target } => seq!["paste-buffer"@, "-t"@, target@],
        TmuxCommand::SelectWindow { session, window } => seq![
            "select-window"@,
            "-t"@,
            session@ + seq![':'] + window@,
        ],
        TmuxCommand::PaneCommand { target } => seq![
            "display-message"@,
            "-t"@,
            target@,
            "-p"@,
            "#{pane_current_command}"@,
        ],
    }
}

/// `args` passes option `flag` with the value `v`: `flag` is followed by `v`.
pub open spec fn passes(args: Seq<Seq<char>>, flag: Seq<char>, v: Seq<char>) -> bool {
    exists|i: int| 0 <= i && i + 1 < args.len() && #[trigger] args[i] == flag && args[i + 1] == v
}

proof fn lemma_passes(args: Seq<Seq<char>>, i: int, flag: Seq<char>, v: Seq<char>)
    requires
        0 <= i,
        i + 1 < args.len(),
        args[i] == flag,
        args[i + 1] == v,
    ensures
        passes(args, flag, v),
{
}

/// Every tmux command that creates a session, a window or a pane starts it
/// in the project's directory (`-c dir`) and names what it acts on: the
/// session (`-s` for a new session, `-t` for a new window), the window
/// (`-n`), or for a split the pane split (`-t`) with its flag and size
/// (`-l percent%`); those that create a window or pane ask tmux for the new
/// pane's id (`-P -F #{pane_id}`).
pub proof fn new_windows_and_panes_start_in_the_project(c: TmuxCommand)
    ensures
        c matches TmuxCommand::NewPlainSession { name, dir } ==> {
            &&& tmux_args(c)[0] == "new-session"@
            &&& passes(tmux_args(c), "-c"@, dir@)
            &&& passes(tmux_args(c), "-s"@, name@)
        },
        c matches TmuxCommand::NewSessionWindow { session, window, dir } ==> {
            &&& tmux_args(c)[0] == "new-session"@
            &&& passes(tmux_args(c), "-c"@, dir@)
            &&& passes(tmux_args(c), "-s"@, session@)
            &&& passes(tmux_args(c), "-n"@, window@)
            &&& passes(tmux_args(c), "-F"@, "#{pane_id}"@)
            &&& tmux_args(c).contains("-P"@)
        },
        c matches TmuxCommand::NewWindow { session, window, dir } ==> {
            &&& tmux_args(c)[0] == "new-window"@
            &&& passes(tmux_args(c), "-c"@, dir@)
            &&& passes(tmux_args(c), "-t"@, session@)
            &&& passes(tmux_args(c), "-n"@, window@)
            &&& passes(tmux_args(c), "-F"@, "#{pane_id}"@)
            &&& tmux_args(c).contains("-P"@)
        },
        c matches TmuxCommand::SplitWindow { flag, percent, target, dir } ==> {
            &&& tmux_args(c)[0] == "split-window"@
            &&& passes(tmux_args(c), "-c"@, dir@)
            &&& passes(tmux_args(c), "-t"@, target@)
            &&& passes(tmux_args(c), "-l"@, decimal(percent as nat).push('%'))
            &&& tmux_args(c).contains(flag@)
            &&& passes(tmux_args(c), "-F"@, "#{pane_id}"@)
            &&& tmux_args(c).contains("-P"@)
        },
{
    let a = tmux_args(c);
    match c {
        TmuxCommand::NewPlainSession { name, dir } => {
            lemma_passes(a, 4, "-c"@, dir@);
            lemma_passes(a, 2, "-s"@, name@);
        },
        TmuxCommand::NewSessionWindow { session, window, dir } => {
            lemma_passes(a, 6, "-c"@, dir@);
            lemma_passes(a, 2, "-s"@, session@);
            lemma_passes(a, 4, "-n"@, window@);
            lemma_passes(a, 9, "-F"@, "#{pane_id}"@);
            assert(a[8] == "-P"@);
        },
        TmuxCommand::NewWindow { session, window, dir } => {
            lemma_passes(a, 6, "-c"@, dir@);
            lemma_passes(a, 2, "-t"@, session@);
            lemma_passes(a, 4, "-n"@, window@);
            lemma_passes(a, 9, "-F"@, "#{pane_id}"@);
            assert(a[8] == "-P"@);
        },
        TmuxCommand::SplitWindow { flag, percent, target, dir } => {
            lemma_passes(a, 7, "-c"@, dir@);
            lemma_passes(a, 5, "-t"@, target@);
            lemma_passes(a, 3, "-l"@, decimal(percent as nat).push('%'));
            lemma_passes(a, 10, "-F"@, "#{pane_id}"@);
            assert(a[2] == flag@);
            assert(a[9] == "-P"@);
        },
        _ => {},
    }
}

fn push_arg(v: &mut Vec<String>, s: &str)
    ensures
        texts(final(v)@) == texts(old(v)@).push(s@),
{
    v.push(owned(s));
    assert(texts(v@) =~= texts(old(v)@).push(s@));
}

fn push_pane_id_format(v: &mut Vec<String>)
    ensures
        texts(final(v)@) == texts(old(v)@) + print_pane_id(),
{
    push_arg(v, "-P");
    push_arg(v, "-F");
    push_arg(v, "#{pane_id}");
    assert(texts(v@) =~= texts(old(v)@) + print_pane_id());
}

impl TmuxCommand {
    /// The arguments passed to `tmux`.
    pub fn args(&self) -> (r: Vec<String>)
        ensures
            texts(r@) == tmux_args(*self),
    {
        let mut v: Vec<String> = Vec::new();
        match self {
            TmuxCommand::HasSession { name } => {
                push_arg(&mut v, "has-session");
                push_arg(&mut v, "-t");
                push_arg(&mut v, name.as_str());
                assert(texts(v@) =~= tmux_args(*self));
            },
            TmuxCommand::KillSession { name } => {
                push_arg(&mut v, "kill-session");
                push_arg(&mut v, "-t");
                push_arg(&mut v, name.as_str());
                assert(texts(v@) =~= tmux_args(*self));
            },
            TmuxCommand::NewPlainSession { name, dir } => {
                push_arg(&mut v, "new-session");
                push_arg(&mut v, "-d");
                push_arg(&mut v, "-s");
                push_arg(&mut v, name.as_str());
                push_arg(&mut v, "-c");
                push_arg(&mut v, dir.as_str());
                assert(texts(v@) =~= tmux_args(*self));
            },
            TmuxCommand::SwitchClient { name } => {
                push_arg(&mut v, "switch-client");
                push_arg(&mut v, "-t");
                push_arg(&mut v, name.as_str());
                assert(texts(v@) =~= tmux_args(*self));
            },
            TmuxCommand::AttachSession { name } => {
                push_arg(&mut v, "attach-session");
                push_arg(&mut v, "-t");
                push_arg(&mut v, name.as_str());
                assert(texts(v@) =~= tmux_args(*self));
            },
            TmuxCommand::NewSessionWindow { session, window, dir } => {
                push_arg(&mut v, "new-session");
                push_arg(&mut v, "-d");
                push_arg(&mut v, "-s");
                push_arg(&mut v, session.as_str());
                push_arg(&mut v, "-n");
                push_arg(&mut v, window.as_str());
                push_arg(&mut v, "-c");
                push_arg(&mut v, dir.as_str());
                push_pane_id_format(&mut v);
                assert(texts(v@) =~= tmux_args(*self));
            },
            TmuxCommand::NewWindow { session, window, dir } => {
                push_arg(&mut v, "new-window");
                push_arg(&mut v, "-a");
                push_arg(&mut v, "-t");
                push_arg(&mut v, session.as_str());
                push_arg(&mut v, "-n");
                push_arg(&mut v, window.as_str());
                push_arg(&mut v, "-c");
                push_arg(&mut v, dir.as_str());
                push_pane_id_format(&mut v);
                assert(texts(v@) =~= tmux_args(*self));
            },
            TmuxCommand::SplitWindow { flag, percent, target, dir } => {
                push_arg(&mut v, "split-window");
                push_arg(&mut v, "-d");
                push_arg(&mut v, flag.as_str());
                push_arg(&mut v, "-l");
                let mut size = decimal_string(*percent as u64);
                push_char(&mut size, '%');
                push_arg(&mut v, size.as_str());
                push_arg(&mut v, "-t");
                push_arg(&mut v, target.as_str());
                push_arg(&mut v, "-c");
                push_arg(&mut v, dir.as_str());
                push_pane_id_format(&mut v);
                assert(texts(v@) =~= tmux_args(*self));
            },
            TmuxCommand::SendKey { target, key } => {
                push_arg(&mut v, "send-keys");
                push_arg(&mut v, "-t");
                push_arg(&mut v, target.as_str());
                push_arg(&mut v, key.as_str());
                assert(texts(v@) =~= tmux_args(*self));
            },
            TmuxCommand::SendLiteral { target, text } => {
                push_arg(&mut v, "send-keys");
                push_arg(&mut v, "-t");
                push_arg(&mut v, target.as_str());
                push_arg(&mut v, "-l");
                push_arg(&mut v, text.as_str());
                assert(texts(v@) =~= tmux_args(*self));
            },
            TmuxCommand::LoadBuffer => {
                push_arg(&mut v, "load-buffer");
                push_arg(&mut v, "-");
                assert(texts(v@) =~= tmux_args(*self));
            },
            TmuxCommand::PasteBuffer { target } => {
                push_arg(&mut v, "paste-buffer");
                push_arg(&mut v, "-t");
                push_arg(&mut v, target.as_str());
                assert(texts(v@) =~= tmux_args(*self));
            },
            TmuxCommand::SelectWindow { session, window } => {
                push_arg(&mut v, "select-window");
                push_arg(&mut v, "-t");
                let mut t = owned(session.as_str());
                push_char(&mut t, ':');
                push_str(&mut t, window.as_str());
                assert(t@ =~= session@ + seq![':'] + window@);
                push_arg(&mut v, t.as_str());
                assert(texts(v@) =~= tmux_args(*self));
            },
            TmuxCommand::PaneCommand { target } => {
                push_arg(&mut v, "display-message");
                push_arg(&mut v, "-t");
                push_arg(&mut v, target.as_str());
                push_arg(&mut v, "-p");
                push_arg(&mut v, "#{pane_current_command}");
                assert(texts(v@) =~= tmux_args(*self));
            },
        }
        assert(texts(v@) =~= tmux_args(*self));
        v
    }
}

/// Where opening a project's session stands.
#[derive(Debug, Clone, Copy, PartialEq, Eq)]
pub enum OpenStage {
    /// Nothing done yet.
    Start,
    /// tmux was asked whether the session exists; the reply says whether it does.
    Checked,
    /// The configured layout was built; the reply says whether that worked.
    Built,
    /// A plain session was created.
    PlainCreated,
    /// The session was removed after its layout could not be built.
    Removed,
    /// The session was shown.
    Shown,
    /// Nothing is left to do.
    Done,
}

/// What the caller is asked to do next while opening a session.
#[derive(Debug, PartialEq, Eq)]
pub enum OpenAction {
    /// Run this tmux command; after `HasSession`, hand back whether it
    /// succeeded (the session exists).
    Tmux(TmuxCommand),
    /// Build the configured layout; hand back whether that worked.
    BuildLayout,
    /// Give up with the error of the failed build.
    GiveUp,
    /// The session is open.
    Finished,
}

/// The stage that follows `stage` given the reply to its action.
pub open spec fn open_next(stage: OpenStage, reply: bool, configured: bool) -> OpenStage {
    match stage {
        OpenStage::Start => OpenStage::Checked,
        OpenStage::Checked => if reply {
            OpenStage::Shown
        } else if configured {
            OpenStage::Built
        } else {
            OpenStage::PlainCreated
        },
        OpenStage::Built => if reply {
            OpenStage::Shown
        } else {
            OpenStage::Removed
        },
        OpenStage::PlainCreated => OpenStage::Shown,
        OpenStage::Removed => OpenStage::Done,
        OpenStage::Shown => OpenStage::Done,
        OpenStage::Done => OpenStage::Done,
    }
}

/// `c` is the command that shows session `name`: switching the client
/// inside tmux, attaching the terminal outside it.
pub open spec fn shows_session(c: TmuxCommand, inside_tmux: bool, name: Seq<char>) -> bool {
    if inside_tmux {
        c matches TmuxCommand::SwitchClient { name: n } && n@ == name
    } else {
        c matches TmuxCommand::AttachSession { name: n } && n@ == name
    }
}

/// The action that comes with moving on from `stage` given the reply:
/// ask whether the session exists; if it does, show it; if not, build the
/// configured layout where one applies, else create a plain session in
/// `dir`; after a failed build remove the session and give up; show the
/// session last.
pub open spec fn open_action(
    stage: OpenStage,
    reply: bool,
    configured: bool,
    inside_tmux: bool,
    name: Seq<char>,
    dir: Seq<char>,
    a: OpenAction,
) -> bool {
    match stage {
        OpenStage::Start => a matches OpenAction::Tmux(TmuxCommand::HasSession { name: n })
            && n@ == name,
        OpenStage::Checked => if reply {
            a matches OpenAction::Tmux(c) && shows_session(c, inside_tmux, name)
        } else if configured {
            a is BuildLayout
        } else {
            a matches OpenAction::Tmux(TmuxCommand::NewPlainSession { name: n, dir: d }) && n@
                == name && d@ == dir
        },
        OpenStage::Built => if reply {
            a matches OpenAction::Tmux(c) && shows_session(c, inside_tmux, name)
        } else {
            a matches OpenAction::Tmux(TmuxCommand::KillSession { name: n }) && n@ == name
        },
        OpenStage::PlainCreated => a matches OpenAction::Tmux(c) && shows_session(
            c,
            inside_tmux,
            name,
        ),
        OpenStage::Removed => a is GiveUp,
        OpenStage::Shown => a is Finished,
        OpenStage::Done => a is Finished,
    }
}

/// One step of opening the session `name` for the project in `dir`:
/// `reply` answers the action of the last step, `configured` says whether a
/// session layout applies to the project, `inside_tmux` whether this runs
/// inside tmux.
pub fn open_step(
    stage: OpenStage,
    reply: bool,
    configured: bool,
    inside_tmux: bool,
    name: &str,
    dir: &str,
) -> (r: (OpenStage, OpenAction))
    ensures
        r.0 == open_next(stage, reply, configured),
        open_action(stage, reply, configured, inside_tmux, name@, dir@, r.1),
{
    match stage {
        OpenStage::Start => (
            OpenStage::Checked,
            OpenAction::Tmux(TmuxCommand::HasSession { name: owned(name) }),
        ),
        OpenStage::Checked => if reply {
            (OpenStage::Shown, OpenAction::Tmux(show_session_command(inside_tmux, name)))
        } else if configured {
            (OpenStage::Built, OpenAction::BuildLayout)
        } else {
            (
                OpenStage::PlainCreated,
                OpenAction::Tmux(TmuxCommand::NewPlainSession { name: owned(name), dir: owned(dir) }),
            )
        },
        OpenStage::Built => if reply {
            (OpenStage::Shown, OpenAction::Tmux(show_session_command(inside_tmux, name)))
        } else {
            (OpenStage::Removed, OpenAction::Tmux(TmuxCommand::KillSession { name: owned(name) }))
        },
        OpenStage::PlainCreated => (
            OpenStage::Shown,
            OpenAction::Tmux(show_session_command(inside_tmux, name)),
        ),
        OpenStage::Removed => (OpenStage::Done, OpenAction::GiveUp),
        OpenStage::Shown => (OpenStage::Done, OpenAction::Finished),
        OpenStage::Done => (OpenStage::Done, OpenAction::Finished),
    }
}

/// The session a tmux command names, where it names one.
pub open spec fn session_named(c: TmuxCommand) -> Option<Seq<char>> {
    match c {
        TmuxCommand::HasSession { name } => Some(name@),
        TmuxCommand::KillSession { name } => Some(name@),
        TmuxCommand::NewPlainSession { name, .. } => Some(name@),
        TmuxCommand::SwitchClient { name } => Some(name@),
        TmuxCommand::AttachSession { name } => Some(name@),
        TmuxCommand::NewSessionWindow { session, .. } => Some(session@),
        TmuxCommand::NewWindow { session, .. } => Some(session@),
        TmuxCommand::SelectWindow { session, .. } => Some(session@),
        _ => None,
    }
}

/// Opening a session uses one session name throughout: every tmux command
/// that a step of opening asks for names the session being opened.
pub proof fn opening_names_one_session(
    stage: OpenStage,
    reply: bool,
    configured: bool,
    inside_tmux: bool,
    name: Seq<char>,
    dir: Seq<char>,
    a: OpenAction,
)
    requires
        open_action(stage, reply, configured, inside_tmux, name, dir, a),
    ensures
        a matches OpenAction::Tmux(c) ==> session_named(c) == Some(name),
{
}

/// The most steps that can still come before opening a session is done,
/// whatever the replies.
pub open spec fn steps_to_done(stage: OpenStage) -> nat {
    match stage {
        OpenStage::Start => 4,
        OpenStage::Checked => 3,
        OpenStage::Built => 2,
        OpenStage::PlainCreated => 2,
        OpenStage::Removed => 1,
        OpenStage::Shown => 1,
        OpenStage::Done => 0,
    }
}

/// Each step of opening a session that is not done brings it one closer to
/// `Done`, so opening ends after at most four steps.
pub proof fn opening_ends(stage: OpenStage, reply: bool, configured: bool)
    ensures
        stage != OpenStage::Done ==> steps_to_done(open_next(stage, reply, configured)) < steps_to_done(
            stage,
        ),
        steps_to_done(OpenStage::Start) == 4,
{
}

/// The command that shows a session: switching the client when already
/// inside tmux, attaching the terminal otherwise.
pub fn show_session_command(inside_tmux: bool, name: &str) -> (r: TmuxCommand)
    ensures
        inside_tmux ==> (r matches TmuxCommand::SwitchClient { name: n } && n@ == name@),
        !inside_tmux ==> (r matches TmuxCommand::AttachSession { name: n } && n@ == name@),
{
    if inside_tmux {
        TmuxCommand::SwitchClient { name: owned(name) }
    } else {
        TmuxCommand::AttachSession { name: owned(name) }
    }
}

} // verus!
