use seela::config::{Pane, SplitDirection, Window};
use seela::tmux::{
    confirm_command_line, current_command, expand_command, expand_exec_path, hook_command_line,
    is_shell, pane_split_arg, parse_exec_step, poll_shell, run_command_line, session_name,
    entry_actions, open_step, pane_preamble, shell_escape, PaneAction, show_session_command, window_split_arg, ExecStep, OpenAction,
    OpenStage, ShellPoll, TmuxCommand,
};

fn leaf(split: Option<SplitDirection>) -> Pane {
    Pane { split, commands: None, panes: Vec::new(), split_percents: Vec::new() }
}

#[test]
fn known_shells_are_recognised() {
    for s in ["bash", "zsh", "fish", "sh", "dash", "ksh", "tcsh", "csh", "nu"] {
        assert!(is_shell(s));
    }
    assert!(!is_shell("nvim"));
    assert!(!is_shell("bash "));
    assert!(!is_shell(""));
}

#[test]
fn single_quotes_are_escaped() {
    assert_eq!(shell_escape("plain"), "'plain'");
    assert_eq!(shell_escape("it's"), "'it'\\''s'");
    assert_eq!(shell_escape(""), "''");
    assert_eq!(shell_escape("a b $HOME"), "'a b $HOME'");
}

#[test]
fn session_names_have_no_dots() {
    assert_eq!(session_name("/home/u/my.app"), Some("my_app".to_string()));
    assert_eq!(session_name("/home/u/.dotfiles/"), Some("_dotfiles".to_string()));
    assert_eq!(session_name("/"), None);
    assert_eq!(session_name("/a/.."), None);
}

#[test]
fn split_flags_follow_the_configured_direction() {
    let stacked = Window {
        name: "w".to_string(),
        panes: vec![leaf(Some(SplitDirection::Horizontal)), leaf(None)],
        hooks: Vec::new(),
        hooks_parallel: false,
        split_percents: vec![50],
    };
    assert_eq!(window_split_arg(&stacked), "-v");
    let side = Window { panes: vec![leaf(Some(SplitDirection::Vertical))], ..stacked };
    assert_eq!(window_split_arg(&side), "-h");
    let empty = Window {
        name: "e".to_string(),
        panes: Vec::new(),
        hooks: Vec::new(),
        hooks_parallel: false,
        split_percents: Vec::new(),
    };
    assert_eq!(window_split_arg(&empty), "-h");
    assert_eq!(pane_split_arg(&leaf(Some(SplitDirection::Vertical))), "-h");
    assert_eq!(pane_split_arg(&leaf(Some(SplitDirection::Horizontal))), "-v");
    assert_eq!(pane_split_arg(&leaf(None)), "-v");
}

#[test]
fn script_paths_are_resolved() {
    assert_eq!(expand_exec_path("/opt/x.sh", "/cfg"), "/opt/x.sh");
    assert_eq!(expand_exec_path("scripts/build.sh", "/cfg"), "/cfg/scripts/build.sh");
    assert_eq!(expand_exec_path("notify-send", "/cfg"), "notify-send");
    let home = expand_exec_path("~/s.sh", "/cfg");
    assert!(home.ends_with("/s.sh"));
    assert!(!home.starts_with("/cfg"));
    assert_eq!(expand_command("scripts/build.sh --fast now", "/cfg"), "/cfg/scripts/build.sh --fast now");
    assert_eq!(expand_command("notify-send done", "/cfg"), "notify-send done");
    assert_eq!(expand_command("scripts/a.sh ", "/cfg"), "/cfg/scripts/a.sh");
}

#[test]
fn run_and_hook_lines_carry_the_environment() {
    assert_eq!(
        run_command_line("/p/app", "app", "editor", "%3", "/cfg/run.sh x"),
        "SEELA_SESSION_PATH='/p/app' SEELA_SESSION_NAME='app' SEELA_WINDOW_NAME='editor' SEELA_PANE_ID='%3' /cfg/run.sh x\n"
    );
    assert_eq!(
        hook_command_line("/p/o'k", "ok", "w", "notify-send hi"),
        "SEELA_SESSION_PATH='/p/o'\\''k' SEELA_SESSION_NAME='ok' SEELA_WINDOW_NAME='w' notify-send hi"
    );
    assert_eq!(
        confirm_command_line(Some("/bin/seela"), "cargo run", "@confirm cargo run"),
        "/bin/seela --run-command 'cargo run'"
    );
    assert_eq!(confirm_command_line(None, "cargo run", "  @confirm cargo run"), "  @confirm cargo run");
}

#[test]
fn exec_entries_are_read_by_operator() {
    assert_eq!(parse_exec_step("   "), ExecStep::Skip);
    assert_eq!(parse_exec_step(" @confirm cargo run --release "), ExecStep::Confirm("cargo run --release".to_string()));
    assert_eq!(parse_exec_step("@run ~/scripts/setup.sh"), ExecStep::Run("~/scripts/setup.sh".to_string()));
    assert_eq!(parse_exec_step("@wait 2"), ExecStep::WaitSeconds(2));
    assert_eq!(parse_exec_step("@wait soon"), ExecStep::Skip);
    assert_eq!(parse_exec_step("@wait-milli 500"), ExecStep::WaitMillis(500));
    assert_eq!(parse_exec_step("@wait-ms 5"), ExecStep::WaitMillis(5));
    assert_eq!(parse_exec_step("@sk g"), ExecStep::SendKey("g".to_string()));
    assert_eq!(parse_exec_step("@send-key C-c"), ExecStep::SendKey("C-c".to_string()));
    assert_eq!(parse_exec_step(" nvim "), ExecStep::Type(" nvim ".to_string()));
    assert_eq!(parse_exec_step("@run"), ExecStep::Type("@run".to_string()));
    assert_eq!(parse_exec_step("@other x"), ExecStep::Type("@other x".to_string()));
    assert_eq!(parse_exec_step("@wait 99999999999999999999"), ExecStep::Skip);
}

#[test]
fn shell_polling_waits_then_gives_up() {
    assert_eq!(poll_shell(Some("zsh"), 0, 100), ShellPoll::Ready);
    assert_eq!(poll_shell(Some("nvim"), 0, 100), ShellPoll::Wait(50));
    assert_eq!(poll_shell(None, 50, 100), ShellPoll::Wait(100));
    assert_eq!(poll_shell(Some("nvim"), 100, 100), ShellPoll::TimedOut);
    assert_eq!(poll_shell(Some("bash"), 100, 100), ShellPoll::Ready);
    assert_eq!(current_command("  zsh\n"), Some("zsh".to_string()));
    assert_eq!(current_command(" \n"), None);
}

#[test]
fn tmux_arguments() {
    let split = TmuxCommand::SplitWindow {
        flag: "-h".to_string(),
        percent: 30,
        target: "%1".to_string(),
        dir: "/p".to_string(),
    };
    assert_eq!(
        split.args(),
        vec!["split-window", "-d", "-h", "-l", "30%", "-t", "%1", "-c", "/p", "-P", "-F", "#{pane_id}"]
    );
    let first = TmuxCommand::NewSessionWindow {
        session: "app".to_string(),
        window: "editor".to_string(),
        dir: "/p".to_string(),
    };
    assert_eq!(
        first.args(),
        vec!["new-session", "-d", "-s", "app", "-n", "editor", "-c", "/p", "-P", "-F", "#{pane_id}"]
    );
    let focus = TmuxCommand::SelectWindow { session: "app".to_string(), window: "editor".to_string() };
    assert_eq!(focus.args(), vec!["select-window", "-t", "app:editor"]);
    assert_eq!(
        TmuxCommand::PaneCommand { target: "%2".to_string() }.args(),
        vec!["display-message", "-t", "%2", "-p", "#{pane_current_command}"]
    );
    assert_eq!(
        TmuxCommand::SendLiteral { target: "%2".to_string(), text: "ls".to_string() }.args(),
        vec!["send-keys", "-t", "%2", "-l", "ls"]
    );
    assert_eq!(TmuxCommand::LoadBuffer.args(), vec!["load-buffer", "-"]);
    assert_eq!(
        show_session_command(true, "app").args(),
        vec!["switch-client", "-t", "app"]
    );
    assert_eq!(
        show_session_command(false, "app").args(),
        vec!["attach-session", "-t", "app"]
    );
    assert_eq!(
        TmuxCommand::NewPlainSession { name: "a".to_string(), dir: "/p".to_string() }.args(),
        vec!["new-session", "-d", "-s", "a", "-c", "/p"]
    );
}

#[test]
fn a_wait_for_the_shell_looks_a_bounded_number_of_times() {
    // timeout 120: told to wait ceil(120 / 50) = 3 times, then timed out.
    let mut elapsed = 0u64;
    let mut waits = 0;
    loop {
        match poll_shell(Some("nvim"), elapsed, 120) {
            ShellPoll::Wait(next) => {
                waits += 1;
                elapsed = next;
            }
            ShellPoll::TimedOut => break,
            ShellPoll::Ready => unreachable!(),
        }
    }
    assert_eq!(waits, 3);
    assert_eq!(poll_shell(None, 0, 0), ShellPoll::TimedOut);
}

fn open_run(exists: bool, configured: bool, built: bool, inside: bool) -> Vec<OpenAction> {
    let mut stage = OpenStage::Start;
    let mut reply = false;
    let mut out = Vec::new();
    loop {
        let (next, action) = open_step(stage, reply, configured, inside, "my_app", "/p/my.app");
        reply = match &action {
            OpenAction::Tmux(TmuxCommand::HasSession { .. }) => exists,
            OpenAction::BuildLayout => built,
            _ => false,
        };
        let done = matches!(action, OpenAction::Finished | OpenAction::GiveUp);
        out.push(action);
        if done {
            return out;
        }
        stage = next;
    }
}

#[test]
fn opening_a_session_step_by_step() {
    let has = OpenAction::Tmux(TmuxCommand::HasSession { name: "my_app".to_string() });
    assert_eq!(
        open_run(true, true, true, false),
        vec![has, OpenAction::Tmux(TmuxCommand::AttachSession { name: "my_app".to_string() }), OpenAction::Finished]
    );
    let has = OpenAction::Tmux(TmuxCommand::HasSession { name: "my_app".to_string() });
    assert_eq!(
        open_run(false, false, false, true),
        vec![
            has,
            OpenAction::Tmux(TmuxCommand::NewPlainSession {
                name: "my_app".to_string(),
                dir: "/p/my.app".to_string()
            }),
            OpenAction::Tmux(TmuxCommand::SwitchClient { name: "my_app".to_string() }),
            OpenAction::Finished,
        ]
    );
    let has = OpenAction::Tmux(TmuxCommand::HasSession { name: "my_app".to_string() });
    assert_eq!(
        open_run(false, true, false, true),
        vec![
            has,
            OpenAction::BuildLayout,
            OpenAction::Tmux(TmuxCommand::KillSession { name: "my_app".to_string() }),
            OpenAction::GiveUp,
        ]
    );
}

#[test]
fn what_is_done_to_a_pane() {
    let k = |s: &str| PaneAction::SendKey(s.to_string());
    assert_eq!(pane_preamble(true, 60), vec![k("-R"), k("C-u"), PaneAction::PauseMillis(60)]);
    assert_eq!(
        pane_preamble(false, 60),
        vec![k("C-c"), PaneAction::PauseMillis(60), k("-R"), k("C-u"), PaneAction::PauseMillis(60)]
    );
    let act = |e: &str| entry_actions(e, Some("/bin/seela"), "/p", "s", "w", "%1", "/cfg", 60, 200);
    assert_eq!(act("   "), vec![]);
    assert_eq!(
        act("nvim"),
        vec![
            PaneAction::WaitForShell,
            PaneAction::Type("nvim".to_string()),
            PaneAction::PauseMillis(60),
            k("C-m"),
            PaneAction::PauseMillis(200),
        ]
    );
    assert_eq!(
        act("@confirm rm x"),
        vec![
            PaneAction::WaitForShell,
            PaneAction::Type("/bin/seela --run-command 'rm x'".to_string()),
            PaneAction::PauseMillis(60),
            k("C-m"),
            PaneAction::PauseMillis(200),
        ]
    );
    assert_eq!(
        act("@run scripts/a.sh x"),
        vec![
            PaneAction::WaitForShell,
            PaneAction::Paste(
                "SEELA_SESSION_PATH='/p' SEELA_SESSION_NAME='s' SEELA_WINDOW_NAME='w' SEELA_PANE_ID='%1' /cfg/scripts/a.sh x\n"
                    .to_string()
            ),
            PaneAction::PauseMillis(200),
        ]
    );
    assert_eq!(act("@wait 2"), vec![PaneAction::PauseSeconds(2)]);
    assert_eq!(act("@wait-ms 5"), vec![PaneAction::PauseMillis(5)]);
    assert_eq!(act("@wait x"), vec![]);
    assert_eq!(act("@sk g"), vec![PaneAction::PauseMillis(60), k("g")]);
}
