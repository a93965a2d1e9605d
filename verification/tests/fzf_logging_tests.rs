use seela::config::FzfConfig;
use seela::fzf::{fzf_args, preview_program, selected_project};
use seela::logging::{log_dir, log_file, should_truncate, MAX_LOG_BYTES};

fn fzf(preview: bool, cmd: &str, opts: Option<&str>) -> FzfConfig {
    FzfConfig { preview, preview_command: cmd.to_string(), fzf_opts: opts.map(|o| o.to_string()) }
}

#[test]
fn preview_command_is_used_when_found() {
    let c = fzf(true, "tree -C -L 2 {}", Some("--height 40%  --layout=reverse"));
    assert_eq!(preview_program(&c), "tree");
    assert_eq!(
        fzf_args(&c, true),
        vec!["--preview", "tree -C -L 2 {}", "--height", "40%", "--layout=reverse"]
    );
    assert_eq!(fzf_args(&c, false), vec!["--preview", "ls {}", "--height", "40%", "--layout=reverse"]);
}

#[test]
fn no_preview_when_off_or_blank() {
    assert_eq!(fzf_args(&fzf(false, "tree", None), true), Vec::<String>::new());
    assert_eq!(fzf_args(&fzf(true, "   ", None), false), Vec::<String>::new());
    assert_eq!(preview_program(&fzf(true, "  ", None)), "");
}

#[test]
fn selection_is_trimmed() {
    assert_eq!(selected_project("/p/app\n"), Some("/p/app".to_string()));
    assert_eq!(selected_project("\n"), None);
}

#[test]
fn log_location_and_size() {
    assert_eq!(log_dir(Some("/xdg".to_string()), Some("/home/u".to_string())), "/xdg/seela");
    assert_eq!(log_dir(None, Some("/home/u".to_string())), "/home/u/.local/share/seela");
    assert_eq!(log_dir(None, None), "./.local/share/seela");
    assert_eq!(log_file("/xdg/seela"), "/xdg/seela/seela.log");
    assert_eq!(MAX_LOG_BYTES, 1024 * 1024);
    assert!(!should_truncate(1024 * 1024));
    assert!(should_truncate(1024 * 1024 + 1));
}
