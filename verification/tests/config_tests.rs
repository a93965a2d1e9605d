use seela::config::{
    action_delay, deserialize_level, get_config_path, key_delay, log_level, preview,
    preview_command, startup_delay, Config, ConfigError, FzfConfig, Folders, LogConfig, LogLevel,
    ProjectType, Session, SessionChoice, TmuxConfig, config_candidates, first_existing, any_found,
};
use seela::paths::{expand_path, PathParts};

fn strings(v: &[&str]) -> Vec<String> {
    v.iter().map(|s| s.to_string()).collect()
}

fn session(name: &str, paths: Option<&[&str]>, types: Option<&[&str]>) -> Session {
    Session {
        name: Some(name.to_string()),
        paths: paths.map(strings),
        types: types.map(strings),
        windows: strings(&["editor"]),
        window_focus: None,
    }
}

fn config(sessions: Vec<Session>, default: Option<Session>, types: Vec<ProjectType>) -> Config {
    Config {
        folders: Folders {
            search_dirs: strings(&["/projects"]),
            force_include: None,
            exclude_paths: None,
        },
        fzf: FzfConfig::default(),
        tmux: TmuxConfig::default(),
        log: LogConfig::default(),
        windows: Vec::new(),
        custom_sessions: sessions,
        default_session: default,
        project_types: types,
    }
}

fn parts(p: &str) -> PathParts {
    PathParts::of(p)
}

fn session_parts(cfg: &Config) -> Vec<Vec<PathParts>> {
    cfg.custom_sessions
        .iter()
        .map(|s| match &s.paths {
            Some(ps) => ps.iter().map(|p| parts(p)).collect(),
            None => Vec::new(),
        })
        .collect()
}

#[test]
fn defaults_match_the_documented_values() {
    assert!(preview());
    assert_eq!(preview_command(), "tree -C -L 2 {}");
    assert_eq!(startup_delay(), 600);
    assert_eq!(key_delay(), 60);
    assert_eq!(action_delay(), 200);
    assert_eq!(log_level(), LogLevel::Warn);
    let t = TmuxConfig::default();
    assert_eq!((t.startup_delay_ms, t.key_delay_ms, t.action_delay_ms), (600, 60, 200));
    let f = FzfConfig::default();
    assert!(f.preview);
    assert_eq!(f.preview_command, "tree -C -L 2 {}");
    assert!(f.fzf_opts.is_none());
    assert_eq!(LogConfig::default().level, LogLevel::Warn);
}

#[test]
fn log_levels_are_read_by_name_or_number() {
    assert_eq!(deserialize_level("warn"), Ok(LogLevel::Warn));
    assert_eq!(deserialize_level("TRACE"), Ok(LogLevel::Trace));
    assert_eq!(deserialize_level("Debug"), Ok(LogLevel::Debug));
    assert_eq!(deserialize_level("info"), Ok(LogLevel::Info));
    assert_eq!(deserialize_level("error"), Ok(LogLevel::Error));
    assert_eq!(deserialize_level("1"), Ok(LogLevel::Error));
    assert_eq!(deserialize_level("+5"), Ok(LogLevel::Trace));
    assert_eq!(deserialize_level("03"), Ok(LogLevel::Info));
}

#[test]
fn unknown_log_level_is_refused_with_its_message() {
    assert_eq!(
        deserialize_level("loud"),
        Err("invalid log level 'loud', expected one of: trace, debug, info, warn, error".to_string())
    );
    assert!(deserialize_level("6").is_err());
    assert!(deserialize_level("").is_err());
    assert!(deserialize_level(" warn").is_err());
}

#[test]
fn empty_search_dirs_are_refused() {
    let mut cfg = config(Vec::new(), None, Vec::new());
    cfg.folders.search_dirs.clear();
    assert!(matches!(cfg.validate(), Err(ConfigError::EmptySearchDirs)));
    let ok = config(Vec::new(), None, Vec::new());
    let checked = ok.validate().unwrap();
    assert_eq!(checked.folders.search_dirs, vec!["/projects".to_string()]);
}

#[test]
fn exact_path_beats_type_and_prefix() {
    let cfg = config(
        vec![
            session("prefix", Some(&["/home/u"]), None),
            session("typed", None, Some(&["rust"])),
            session("exact", Some(&["/x", "/home/u/app/"]), None),
        ],
        Some(session("default", None, None)),
        vec![ProjectType { name: "rust".to_string(), files: strings(&["Cargo.toml"]) }],
    );
    let path = parts("/home/u/app").components;
    let exp = session_parts(&cfg);
    assert_eq!(cfg.choose_session(&path, &exp, &vec![true]), SessionChoice::Custom(2));
}

#[test]
fn matching_type_comes_before_prefix() {
    let cfg = config(
        vec![
            session("prefix", Some(&["/home/u"]), None),
            session("web", Some(&["/elsewhere"]), Some(&["web"])),
            session("typed", None, Some(&["rust"])),
        ],
        None,
        vec![
            ProjectType { name: "rust".to_string(), files: strings(&["Cargo.toml"]) },
            ProjectType { name: "web".to_string(), files: strings(&["package.json"]) },
            ProjectType { name: "rust".to_string(), files: strings(&["build.rs"]) },
        ],
    );
    let path = parts("/home/u/app").components;
    let exp = session_parts(&cfg);
    assert_eq!(cfg.choose_session(&path, &exp, &vec![true, false, false]), SessionChoice::Custom(2));
    // Only the first project type of a name counts.
    assert_eq!(cfg.choose_session(&path, &exp, &vec![false, false, true]), SessionChoice::Custom(0));
    assert_eq!(cfg.choose_session(&path, &exp, &vec![false, true, false]), SessionChoice::Custom(1));
}

#[test]
fn longest_prefix_wins_and_first_of_equals() {
    let cfg = config(
        vec![
            session("short", Some(&["/home"]), None),
            session("long", Some(&["/home/u"]), None),
            session("same", Some(&["/home/u/"]), None),
            session("other", Some(&["/home/uu"]), None),
        ],
        None,
        Vec::new(),
    );
    let path = parts("/home/u/app").components;
    let exp = session_parts(&cfg);
    assert_eq!(cfg.choose_session(&path, &exp, &Vec::new()), SessionChoice::Custom(2));
    let cfg2 = config(
        vec![session("a", Some(&["/home/u"]), None), session("b", Some(&["/home/u"]), None)],
        None,
        Vec::new(),
    );
    let exp2 = session_parts(&cfg2);
    assert_eq!(cfg2.choose_session(&path, &exp2, &Vec::new()), SessionChoice::Custom(0));
}

#[test]
fn default_session_comes_last() {
    let cfg = config(
        vec![session("away", Some(&["/srv"]), None)],
        Some(session("default", None, None)),
        Vec::new(),
    );
    let path = parts("/home/u/app").components;
    let exp = session_parts(&cfg);
    assert_eq!(cfg.choose_session(&path, &exp, &Vec::new()), SessionChoice::DefaultSession);
    let none = config(vec![session("away", Some(&["/srv"]), None)], None, Vec::new());
    let exp2 = session_parts(&none);
    assert_eq!(none.choose_session(&path, &exp2, &Vec::new()), SessionChoice::Unmatched);
}

#[test]
fn get_session_for_path_reads_the_real_paths() {
    let cfg = config(
        vec![
            session("root", Some(&["/"]), None),
            session("etc", Some(&["/etc/"]), None),
            session("typed", None, Some(&["has-passwd"])),
        ],
        Some(session("default", None, None)),
        vec![ProjectType { name: "has-passwd".to_string(), files: strings(&["passwd"]) }],
    );
    let chosen = cfg.get_session_for_path("/etc").unwrap();
    assert_eq!(chosen.name.as_deref(), Some("etc"));
    let typed = config(
        vec![session("root", Some(&["/"]), None), session("typed", None, Some(&["has-passwd"]))],
        None,
        vec![ProjectType { name: "has-passwd".to_string(), files: strings(&["passwd"]) }],
    );
    assert_eq!(typed.get_session_for_path("/etc").unwrap().name.as_deref(), Some("typed"));
    let prefix = config(vec![session("root", Some(&["/"]), None)], None, Vec::new());
    assert_eq!(prefix.get_session_for_path("/etc").unwrap().name.as_deref(), Some("root"));
    let nothing = config(Vec::new(), None, Vec::new());
    assert!(nothing.get_session_for_path("/etc").is_none());
}

#[test]
fn project_type_matches_on_an_existing_file() {
    let t = ProjectType { name: "x".to_string(), files: strings(&["no-such-file-here", "passwd"]) };
    assert!(t.matches("/etc"));
    let none = ProjectType { name: "y".to_string(), files: Vec::new() };
    assert!(!none.matches("/etc"));
    let missing = ProjectType { name: "z".to_string(), files: strings(&["no-such-file-here"]) };
    assert!(!missing.matches("/etc"));
}

#[test]
fn tilde_is_expanded_only_at_the_start() {
    assert_eq!(expand_path("/abs/path"), "/abs/path");
    assert_eq!(expand_path("rel/~/x"), "rel/~/x");
    assert_eq!(expand_path("~user/x"), "~user/x");
    let home = expand_path("~/projects");
    assert!(home.ends_with("/projects"));
    assert_ne!(home, "~/projects");
}

#[test]
fn config_file_candidates_in_order() {
    let c = config_candidates(
        Some("/given.toml".to_string()),
        Some("/seela".to_string()),
        Some("/xdg".to_string()),
        Some("/home/u".to_string()),
    );
    assert_eq!(
        c,
        strings(&[
            "/given.toml",
            "/seela/config.toml",
            "/xdg/seela/config.toml",
            "/home/u/.config/seela/config.toml",
        ])
    );
    assert_eq!(config_candidates(None, None, None, None), Vec::<String>::new());
    assert_eq!(
        config_candidates(None, Some("/seela/".to_string()), None, None),
        strings(&["/seela/config.toml"])
    );
}

#[test]
fn config_path_is_the_first_that_exists() {
    assert_eq!(
        get_config_path(Some("/etc/passwd".to_string()), None, None, None),
        Some("/etc/passwd".to_string())
    );
    assert_eq!(
        get_config_path(Some("/no/such/file.toml".to_string()), Some("/no/such".to_string()), None, None),
        None
    );
}

#[test]
fn first_existing_takes_the_first_flagged_place() {
    let c = strings(&["/a", "/b", "/c"]);
    assert_eq!(first_existing(&c, &vec![false, true, true]), Some("/b".to_string()));
    assert_eq!(first_existing(&c, &vec![false, false]), None);
    assert_eq!(first_existing(&c, &vec![]), None);
    assert_eq!(first_existing(&c, &vec![true]), Some("/a".to_string()));
}

#[test]
fn project_type_file_places_and_answers() {
    let t = ProjectType { name: "x".to_string(), files: strings(&["Cargo.toml", "src/lib.rs"]) };
    assert_eq!(t.file_paths("/p/"), strings(&["/p/Cargo.toml", "/p/src/lib.rs"]));
    assert!(any_found(&vec![false, true]));
    assert!(!any_found(&vec![false, false]));
    assert!(!any_found(&vec![]));
}
