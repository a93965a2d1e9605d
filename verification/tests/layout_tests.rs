use seela::config::{
    Config, FzfConfig, Folders, LogConfig, Pane, Session, SplitDirection, TmuxConfig, Window,
};
use seela::layout::{config_is_sized, create_window_command, BuildAction, SessionBuilder};
use seela::tmux::TmuxCommand;

fn s(v: &str) -> String {
    v.to_string()
}

fn run_pane(cmds: &[&str]) -> Pane {
    Pane {
        split: None,
        commands: Some(cmds.iter().map(|c| s(c)).collect()),
        panes: Vec::new(),
        split_percents: Vec::new(),
    }
}

fn dev_config() -> Config {
    let inner = Pane {
        split: Some(SplitDirection::Horizontal),
        commands: None,
        panes: vec![run_pane(&["cargo watch"]), run_pane(&["lazygit"])],
        split_percents: vec![40],
    };
    let top = Pane {
        split: Some(SplitDirection::Vertical),
        commands: None,
        panes: vec![run_pane(&["nvim"]), inner],
        split_percents: vec![30],
    };
    Config {
        folders: Folders { search_dirs: vec![s("/p")], force_include: None, exclude_paths: None },
        fzf: FzfConfig::default(),
        tmux: TmuxConfig::default(),
        log: LogConfig::default(),
        windows: vec![
            Window {
                name: s("dev"),
                panes: vec![top],
                hooks: vec![s("notify-send hi")],
                hooks_parallel: false,
                split_percents: Vec::new(),
            },
            Window {
                name: s("shell"),
                panes: Vec::new(),
                hooks: Vec::new(),
                hooks_parallel: false,
                split_percents: Vec::new(),
            },
        ],
        custom_sessions: Vec::new(),
        default_session: None,
        project_types: Vec::new(),
    }
}

fn session(windows: &[&str]) -> Session {
    Session {
        name: None,
        paths: None,
        types: None,
        windows: windows.iter().map(|w| s(w)).collect(),
        window_focus: Some(s("dev")),
    }
}

fn next(b: &mut SessionBuilder, cfg: &Config, sess: &Session, reply: Option<&str>) -> BuildAction {
    let mut r = b.step(cfg, sess, reply.map(s));
    while r == BuildAction::Continue {
        r = b.step(cfg, sess, None);
    }
    r
}

#[test]
fn dev_window_is_split_and_tasks_collected() {
    let cfg = dev_config();
    assert!(config_is_sized(&cfg));
    let sess = session(&["dev", "undefined", "shell"]);
    let mut b = SessionBuilder::new();
    assert_eq!(next(&mut b, &cfg, &sess, None), BuildAction::CreateWindow { first: true, name: s("dev") });
    assert_eq!(
        next(&mut b, &cfg, &sess, Some("%0")),
        BuildAction::Split { flag: s("-h"), percent: 30, target: s("%0") }
    );
    assert_eq!(
        next(&mut b, &cfg, &sess, Some("%1")),
        BuildAction::Split { flag: s("-v"), percent: 40, target: s("%1") }
    );
    assert_eq!(next(&mut b, &cfg, &sess, Some("%2")), BuildAction::SpawnHooks { window: 0, name: s("dev") });
    assert_eq!(next(&mut b, &cfg, &sess, None), BuildAction::CreateWindow { first: false, name: s("undefined") });
    assert_eq!(next(&mut b, &cfg, &sess, Some("%3")), BuildAction::CreateWindow { first: false, name: s("shell") });
    assert_eq!(next(&mut b, &cfg, &sess, Some("%4")), BuildAction::Finished);
    let tasks: Vec<(String, String, Vec<String>)> = b
        .tasks
        .iter()
        .map(|t| (t.pane_id.clone(), t.window_name.clone(), t.commands.clone()))
        .collect();
    assert_eq!(
        tasks,
        vec![
            (s("%0"), s("dev"), vec![s("nvim")]),
            (s("%1"), s("dev"), vec![s("cargo watch")]),
            (s("%2"), s("dev"), vec![s("lazygit")]),
        ]
    );
}

#[test]
fn failed_split_leaves_later_panes_out() {
    let cfg = dev_config();
    let sess = session(&["dev"]);
    let mut b = SessionBuilder::new();
    next(&mut b, &cfg, &sess, None);
    next(&mut b, &cfg, &sess, Some("%0"));
    assert_eq!(next(&mut b, &cfg, &sess, None), BuildAction::SpawnHooks { window: 0, name: s("dev") });
    assert_eq!(next(&mut b, &cfg, &sess, None), BuildAction::Finished);
    assert_eq!(b.tasks.len(), 1);
    assert_eq!(b.tasks[0].pane_id, "%0");
}

#[test]
fn failed_window_fails_the_session() {
    let cfg = dev_config();
    let sess = session(&["dev"]);
    let mut b = SessionBuilder::new();
    next(&mut b, &cfg, &sess, None);
    assert_eq!(b.step(&cfg, &sess, None), BuildAction::Failed);
}

#[test]
fn windows_are_created_in_the_session() {
    assert_eq!(
        create_window_command("app", "dev", "/p", true),
        TmuxCommand::NewSessionWindow { session: s("app"), window: s("dev"), dir: s("/p") }
    );
    assert_eq!(
        create_window_command("app", "dev", "/p", false),
        TmuxCommand::NewWindow { session: s("app"), window: s("dev"), dir: s("/p") }
    );
}

#[test]
fn missing_split_sizes_are_noticed() {
    let mut cfg = dev_config();
    cfg.windows[0].panes[0].split_percents.clear();
    assert!(!config_is_sized(&cfg));
}

#[test]
fn finished_builder_stays_finished() {
    let cfg = dev_config();
    let sess = session(&["shell"]);
    let mut b = SessionBuilder::new();
    assert_eq!(next(&mut b, &cfg, &sess, None), BuildAction::CreateWindow { first: true, name: s("shell") });
    assert_eq!(next(&mut b, &cfg, &sess, Some("%0")), BuildAction::Finished);
    assert_eq!(b.step(&cfg, &sess, None), BuildAction::Finished);
    assert_eq!(b.step(&cfg, &sess, Some(s("%9"))), BuildAction::Finished);
    assert!(b.tasks.is_empty());
}

#[test]
fn tasks_come_in_walk_order() {
    let cfg = dev_config();
    let sess = session(&["dev", "dev"]);
    let mut b = SessionBuilder::new();
    next(&mut b, &cfg, &sess, None);
    next(&mut b, &cfg, &sess, Some("%0"));
    next(&mut b, &cfg, &sess, Some("%1"));
    next(&mut b, &cfg, &sess, Some("%2"));
    next(&mut b, &cfg, &sess, None);
    next(&mut b, &cfg, &sess, Some("%3"));
    next(&mut b, &cfg, &sess, Some("%4"));
    assert_eq!(next(&mut b, &cfg, &sess, Some("%5")), BuildAction::SpawnHooks { window: 0, name: s("dev") });
    assert_eq!(next(&mut b, &cfg, &sess, None), BuildAction::Finished);
    let order: Vec<(usize, Vec<usize>, String)> =
        b.tasks.iter().map(|t| (t.window_number, t.node.clone(), t.pane_id.clone())).collect();
    assert_eq!(
        order,
        vec![
            (1, vec![0, 0], s("%0")),
            (1, vec![0, 1, 0], s("%1")),
            (1, vec![0, 1, 1], s("%2")),
            (2, vec![0, 0], s("%3")),
            (2, vec![0, 1, 0], s("%4")),
            (2, vec![0, 1, 1], s("%5")),
        ]
    );
}
