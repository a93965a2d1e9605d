use seela::config::Folders;
use seela::paths::PathParts;
use seela::projects::{
    accepts, add_if_new, confirm_answer, expand_paths, git_marker, has_search_dir_below,
    is_excluded, keep_marked, ProjectList, ProjectSearch, Visit,
};

fn parts(v: &[&str]) -> Vec<PathParts> {
    v.iter().map(|p| PathParts::of(p)).collect()
}

fn comps(p: &str) -> Vec<String> {
    PathParts::of(p).components
}

#[test]
fn excluded_paths_and_their_subdirectories_are_skipped() {
    let ex = parts(&["/code/old"]);
    let dirs = parts(&["/code"]);
    assert!(is_excluded(&comps("/code/old"), &ex, &dirs));
    assert!(is_excluded(&comps("/code/old/deep/x"), &ex, &dirs));
    assert!(!is_excluded(&comps("/code/older"), &ex, &dirs));
    assert!(!is_excluded(&comps("/code/new"), &ex, &dirs));
}

#[test]
fn search_dir_inside_an_excluded_path_is_still_searched() {
    let ex = parts(&["/code/old"]);
    let dirs = parts(&["/code", "/code/old/needed"]);
    assert!(!is_excluded(&comps("/code/old/needed"), &ex, &dirs));
    assert!(!is_excluded(&comps("/code/old/needed/app"), &ex, &dirs));
    assert!(is_excluded(&comps("/code/old/other"), &ex, &dirs));
    assert!(has_search_dir_below(&comps("/code/old"), &dirs));
    assert!(!has_search_dir_below(&comps("/code/old/other"), &dirs));
    let deeper = parts(&["/code/old", "/code/old/needed/skip"]);
    assert!(is_excluded(&comps("/code/old/needed/skip/x"), &deeper, &dirs));
}

#[test]
fn walking_decides_per_entry() {
    let folders = Folders {
        search_dirs: vec!["/".to_string()],
        force_include: Some(vec!["/etc".to_string(), "/no/such/dir".to_string()]),
        exclude_paths: Some(vec!["/proc".to_string()]),
    };
    let search = ProjectSearch::new(&folders);
    assert_eq!(search.visit("/etc/passwd", false, false), Visit::Enter);
    assert_eq!(search.visit("/etc/passwd", false, true), Visit::Enter);
    assert_eq!(search.visit("/proc", true, false), Visit::SkipBelow);
    assert_eq!(search.visit("/proc", true, true), Visit::SkipBelow);
    assert_eq!(search.visit("/etc", true, false), Visit::Enter);
    assert_eq!(search.visit("/etc", true, true), Visit::Project);
    assert_eq!(git_marker("/p/app"), "/p/app/.git");
    assert_eq!(search.forced_projects(), vec!["/etc".to_string()]);
    assert_eq!(
        search.collect(vec!["/srv/a".to_string(), "/etc/".to_string(), "/srv/a".to_string()]),
        vec!["/etc".to_string(), "/srv/a".to_string()]
    );
    let e = expand_paths(&vec!["/a".to_string(), "b".to_string()]);
    assert_eq!(e.texts, vec!["/a".to_string(), "b".to_string()]);
}

#[test]
fn projects_are_listed_once_in_order() {
    let mut list = ProjectList::from_paths(vec!["/forced/a".to_string()]);
    list.add_all(vec![
        "/found/b".to_string(),
        "/forced/a/".to_string(),
        "/found/c".to_string(),
        "/found/b".to_string(),
    ]);
    assert_eq!(
        list.paths(),
        &vec!["/forced/a".to_string(), "/found/b".to_string(), "/found/c".to_string()]
    );
    list.add("/forced/a/.".to_string());
    assert_eq!(list.into_paths().len(), 3);
    let mut paths: Vec<String> = Vec::new();
    let mut keys: Vec<Vec<String>> = Vec::new();
    add_if_new(&mut paths, &mut keys, "/x".to_string(), vec!["/".to_string(), "x".to_string()]);
    add_if_new(&mut paths, &mut keys, "/x/".to_string(), vec!["/".to_string(), "x".to_string()]);
    add_if_new(&mut paths, &mut keys, "/y".to_string(), vec!["/".to_string(), "y".to_string()]);
    assert_eq!(paths, vec!["/x".to_string(), "/y".to_string()]);
    assert_eq!(keys.len(), 2);
}

#[test]
fn confirmation_answers() {
    assert!(confirm_answer("\n"));
    assert!(confirm_answer("Y\n"));
    assert!(confirm_answer("  YES "));
    assert!(!confirm_answer("no"));
    assert!(!confirm_answer("yess"));
    assert!(accepts(""));
    assert!(accepts("yes"));
    assert!(!accepts("Y"));
}

#[test]
fn marked_entries_are_kept_in_order() {
    let v = vec!["a".to_string(), "b".to_string(), "c".to_string()];
    assert_eq!(keep_marked(&v, &vec![true, false, true]), vec!["a".to_string(), "c".to_string()]);
    assert_eq!(keep_marked(&v, &vec![false, true]), vec!["b".to_string()]);
    assert_eq!(keep_marked(&v, &vec![]), Vec::<String>::new());
}
