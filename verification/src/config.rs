//! The configuration: its types, defaults, checks, and which session
//! layout applies to a project.
use vstd::prelude::*;
pub use crate::paths::expand_path;
use crate::paths::{
    current_home, expand_with_home, home_dir, home_text,
    answers_in_order, ask_in_order, stops_at_first_yes, join, parts_of, path_components, path_join, exists_at, same_path, starts_with_path, texts, tilde_with_home, PathParts,
    PathPartsView,
};
use crate::text::{all_digits, digits_value, owned, push_str};

verus! {

/// `std::io::Error`, carried opaquely in `ConfigError::Io`.
#[verifier::external_type_specification]
#[verifier::external_body]
pub struct ExIoError(std::io::Error);

/// `toml::de::Error`, carried opaquely in `ConfigError::Parse`.
#[verifier::external_type_specification]
#[verifier::external_body]
pub struct ExTomlError(toml::de::Error);

/// How much the program logs.
#[derive(Clone, Copy, Debug, PartialEq, Eq)]
pub enum LogLevel {
    Trace,
    Debug,
    Info,
    Warn,
    Error,
}

/// The whole configuration file.
#[derive(Debug)]
pub struct Config {
    pub folders: Folders,
    pub fzf: FzfConfig,
    pub tmux: TmuxConfig,
    pub log: LogConfig,
    pub windows: Vec<Window>,
    pub custom_sessions: Vec<Session>,
    pub default_session: Option<Session>,
    pub project_types: Vec<ProjectType>,
}

/// The `[log]` table.
#[derive(Debug)]
pub struct LogConfig {
    pub level: LogLevel,
}

/// The `[tmux]` table: delays in milliseconds.
#[derive(Debug)]
pub struct TmuxConfig {
    pub startup_delay_ms: u64,
    pub key_delay_ms: u64,
    pub action_delay_ms: u64,
}

/// A kind of project, recognised by the files it holds.
#[derive(Debug)]
pub struct ProjectType {
    pub name: String,
    pub files: Vec<String>,
}

/// A session layout and the projects it applies to.
#[derive(Debug)]
pub struct Session {
    pub name: Option<String>,
    pub paths: Option<Vec<String>>,
    pub types: Option<Vec<String>>,
    pub windows: Vec<String>,
    pub window_focus: Option<String>,
}

/// A window layout, referred to by name from sessions.
///
/// `split_percents[i]` is the size, in percent, that the split after the
/// `i`-th pane gives to the panes that follow it; it is worked out from the
/// panes' ratios where the configuration is read.
#[derive(Debug)]
pub struct Window {
    pub name: String,
    pub panes: Vec<Pane>,
    pub hooks: Vec<String>,
    pub hooks_parallel: bool,
    pub split_percents: Vec<u32>,
}

/// A pane: either split into child panes, or running commands
/// (`commands` is the `exec` list of the configuration file).
///
/// `split_percents` plays the same part for the child panes as in `Window`.
#[derive(Debug)]
pub struct Pane {
    pub split: Option<SplitDirection>,
    pub commands: Option<Vec<String>>,
    pub panes: Vec<Pane>,
    pub split_percents: Vec<u32>,
}

/// How child panes are laid out.
#[derive(Debug, Clone, Copy, PartialEq, Eq)]
pub enum SplitDirection {
    Horizontal,
    Vertical,
}

/// The `[fzf]` table.
#[derive(Debug)]
pub struct FzfConfig {
    pub preview: bool,
    pub preview_command: String,
    pub fzf_opts: Option<String>,
}

/// The `[folders]` table.
#[derive(Debug)]
pub struct Folders {
    pub search_dirs: Vec<String>,
    pub force_include: Option<Vec<String>>,
    pub exclude_paths: Option<Vec<String>>,
}

/// Why the configuration could not be loaded.
#[derive(Debug)]
pub enum ConfigError {
    Io(std::io::Error),
    Parse(toml::de::Error),
    EmptySearchDirs,
}

/// Whether previews are shown by default.
pub fn preview() -> (r: bool)
    ensures
        r,
{
    true
}

/// The default preview command.
pub fn preview_command() -> (r: String)
    ensures
        r@ == "tree -C -L 2 {}"@,
{
    owned("tree -C -L 2 {}")
}

/// The default wait before commands are sent, in milliseconds.
pub fn startup_delay() -> (r: u64)
    ensures
        r == 600,
{
    600
}

/// The default delay between keystrokes, in milliseconds.
pub fn key_delay() -> (r: u64)
    ensures
        r == 60,
{
    60
}

/// The default delay after Enter, in milliseconds.
pub fn action_delay() -> (r: u64)
    ensures
        r == 200,
{
    200
}

/// The default log level.
pub fn log_level() -> (r: LogLevel)
    ensures
        r == LogLevel::Warn,
{
    LogLevel::Warn
}

impl Default for LogConfig {
    fn default() -> (r: Self)
        ensures
            r.level == LogLevel::Warn,
    {
        LogConfig { level: log_level() }
    }
}

impl Default for TmuxConfig {
    fn default() -> (r: Self)
        ensures
            r.startup_delay_ms == 600,
            r.key_delay_ms == 60,
            r.action_delay_ms == 200,
    {
        TmuxConfig {
            startup_delay_ms: startup_delay(),
            key_delay_ms: key_delay(),
            action_delay_ms: action_delay(),
        }
    }
}

impl Default for FzfConfig {
    fn default() -> (r: Self)
        ensures
            r.preview,
            r.preview_command@ == "tree -C -L 2 {}"@,
            r.fzf_opts is None,
    {
        FzfConfig { preview: preview(), preview_command: preview_command(), fzf_opts: None }
    }
}

/// `c` in lower case, for ASCII letters.
pub open spec fn ascii_lower(c: char) -> char {
    if 'A' <= c <= 'Z' {
        ((c as u32) + 32) as char
    } else {
        c
    }
}

/// `str::eq_ignore_ascii_case`.
pub open spec fn eq_ignore_ascii_case(a: Seq<char>, b: Seq<char>) -> bool {
    &&& a.len() == b.len()
    &&& forall|i: int| 0 <= i < a.len() ==> ascii_lower(#[trigger] a[i]) == ascii_lower(b[i])
}

/// The level that `tracing::Level::from_str` reads from `s`: a number from
/// 1 (error) to 5 (trace) as `usize::from_str` reads it, or one of the level
/// names in any ASCII case.
pub open spec fn level_named(s: Seq<char>) -> Option<LogLevel> {
    let body = if s.len() > 0 && s[0] == '+' {
        s.drop_first()
    } else {
        s
    };
    if body.len() > 0 && all_digits(body) && 1 <= digits_value(body) <= 5 {
        let n = digits_value(body);
        Some(
            if n == 1 {
                LogLevel::Error
            } else if n == 2 {
                LogLevel::Warn
            } else if n == 3 {
                LogLevel::Info
            } else if n == 4 {
                LogLevel::Debug
            } else {
                LogLevel::Trace
            },
        )
    } else if eq_ignore_ascii_case(s, "error"@) {
        Some(LogLevel::Error)
    } else if eq_ignore_ascii_case(s, "warn"@) {
        Some(LogLevel::Warn)
    } else if eq_ignore_ascii_case(s, "info"@) {
        Some(LogLevel::Info)
    } else if eq_ignore_ascii_case(s, "debug"@) {
        Some(LogLevel::Debug)
    } else if eq_ignore_ascii_case(s, "trace"@) {
        Some(LogLevel::Trace)
    } else {
        None
    }
}

/// `s.parse::<tracing::Level>()`, with the level told apart by the five
/// constants `tracing::Level` has. The contract restates the crate's
/// `FromStr` for `Level` (tracing-core 0.1.36, `metadata.rs`).
#[verifier::external_body]
fn tracing_level(s: &str) -> (r: Option<LogLevel>)
    ensures
        r == level_named(s@),
{
    match s.parse::<tracing::Level>() {
        Ok(tracing::Level::ERROR) => Some(LogLevel::Error),
        Ok(tracing::Level::WARN) => Some(LogLevel::Warn),
        Ok(tracing::Level::INFO) => Some(LogLevel::Info),
        Ok(tracing::Level::DEBUG) => Some(LogLevel::Debug),
        Ok(_) => Some(LogLevel::Trace),
        Err(_) => None,
    }
}

/// The message for a log level that cannot be read.
pub open spec fn invalid_level_message(s: Seq<char>) -> Seq<char> {
    "invalid log level '"@ + s + "', expected one of: trace, debug, info, warn, error"@
}

/// Reads the `level` of the `[log]` table.
pub fn deserialize_level(s: &str) -> (r: Result<LogLevel, String>)
    ensures
        match r {
            Ok(l) => level_named(s@) == Some(l),
            Err(m) => level_named(s@) is None && m@ == invalid_level_message(s@),
        },
{
    match tracing_level(s) {
        Some(l) => Ok(l),
        None => {
            let mut m = owned("invalid log level '");
            push_str(&mut m, s);
            push_str(&mut m, "', expected one of: trace, debug, info, warn, error");
            Err(m)
        },
    }
}

/// The places where a project at `path` would hold each of `files`, in order.
pub open spec fn type_file_paths(path: Seq<char>, files: Seq<String>) -> Seq<Seq<char>> {
    files.map_values(|f: String| path_join(path, f@))
}

/// Whether any of the answers is yes.
pub fn any_found(found: &Vec<bool>) -> (r: bool)
    ensures
        r == found@.contains(true),
{
    let mut i: usize = 0;
    while i < found.len()
        invariant
            i <= found.len(),
            forall|k: int| 0 <= k < i ==> !found@[k],
        decreases found.len() - i,
    {
        if found[i] {
            assert(found@[i as int]);
            return true;
        }
        i = i + 1;
    }
    false
}

/// `a` is what the file system answered for a project at `path` and a type
/// listing `files`: it was asked about the places `type_file_paths` lists,
/// in order and up to the first that exists, and `a` says whether one of
/// them exists.
pub open spec fn type_answer(path: Seq<char>, files: Seq<String>, a: bool) -> bool {
    exists|places: Seq<String>, e: Seq<bool>|
        #![trigger answers_in_order(exists_at, places, e)]
        texts(places) == type_file_paths(path, files) && answers_in_order(exists_at, places, e)
            && a == e.contains(true)
}

impl ProjectType {
    /// Whether the project at `path` holds one of this type's files: the
    /// file system is asked about the places `type_file_paths` lists, in
    /// order and up to the first that exists, and the result is whether one
    /// of them exists.
    pub fn matches(&self, path: &str) -> (r: bool)
        ensures
            self.files.len() == 0 ==> !r,
            type_answer(path@, self.files@, r),
    {
        let places = self.file_paths(path);
        let found = ask_in_order(&places, exists_at);
        let r = any_found(&found);
        proof {
            assert(answers_in_order(exists_at, places@, found@));
            assert(texts(places@).len() == places@.len());
        }
        r
    }

    /// The places where a project at `path` would hold each of this type's
    /// files, in order.
    pub fn file_paths(&self, path: &str) -> (r: Vec<String>)
        ensures
            texts(r@) == type_file_paths(path@, self.files@),
    {
        let mut r: Vec<String> = Vec::new();
        let mut i: usize = 0;
        while i < self.files.len()
            invariant
                i <= self.files.len(),
                texts(r@) == type_file_paths(path@, self.files@).take(i as int),
            decreases self.files.len() - i,
        {
            let ghost before = texts(r@);
            r.push(join(path, self.files[i].as_str()));
            assert(texts(r@) =~= before.push(path_join(path@, self.files@[i as int]@)));
            assert(type_file_paths(path@, self.files@).take(i + 1) =~= type_file_paths(
                path@,
                self.files@,
            ).take(i as int).push(path_join(path@, self.files@[i as int]@)));
            i = i + 1;
        }
        assert(type_file_paths(path@, self.files@).take(i as int) =~= type_file_paths(
            path@,
            self.files@,
        ));
        r
    }
}

/// The paths a session names.
pub open spec fn session_paths(s: Session) -> Seq<Seq<char>> {
    match s.paths {
        Some(v) => texts(v@),
        None => Seq::empty(),
    }
}

/// The project types a session names.
pub open spec fn session_types(s: Session) -> Seq<Seq<char>> {
    match s.types {
        Some(v) => texts(v@),
        None => Seq::empty(),
    }
}

/// What a session was chosen to be.
#[derive(Debug, Clone, Copy, PartialEq, Eq)]
pub enum SessionChoice {
    /// The custom session at this index.
    Custom(usize),
    /// The default session.
    DefaultSession,
    /// No session applies.
    Unmatched,
}

/// The expanded paths of the sessions, as `PathParts` views.
pub open spec fn expansion_views(v: Seq<Vec<PathParts>>) -> Seq<Seq<PathPartsView>> {
    v.map_values(|w: Vec<PathParts>| w@.map_values(|p: PathParts| p@))
}

/// `exp[i][j]` stands for the `j`-th path of the `i`-th custom session.
pub open spec fn expansions_fit(cfg: &Config, exp: Seq<Seq<PathPartsView>>) -> bool {
    &&& exp.len() == cfg.custom_sessions@.len()
    &&& forall|i: int|
        0 <= i < exp.len() ==> #[trigger] exp[i].len() == session_paths(
            cfg.custom_sessions@[i],
        ).len()
}

/// Some path of session `i` is the project's path.
pub open spec fn exact_hit(path: Seq<Seq<char>>, exp: Seq<Seq<PathPartsView>>, i: int) -> bool {
    exists|j: int| 0 <= j < exp[i].len() && #[trigger] exp[i][j].components == path
}

/// `i` is the first session with a path equal to the project's path.
pub open spec fn first_exact(path: Seq<Seq<char>>, exp: Seq<Seq<PathPartsView>>, i: int) -> bool {
    &&& 0 <= i < exp.len()
    &&& exact_hit(path, exp, i)
    &&& forall|k: int| 0 <= k < i ==> !exact_hit(path, exp, k)
}

/// `q` is the first project type called `name`.
pub open spec fn first_named(cfg: &Config, name: Seq<char>, q: int) -> bool {
    &&& 0 <= q < cfg.project_types@.len()
    &&& cfg.project_types@[q].name@ == name
    &&& forall|k: int| 0 <= k < q ==> #[trigger] cfg.project_types@[k].name@ != name
}

/// Session `i` names a type whose first definition matched the project
/// (`matches[q]` tells whether project type `q` matched).
pub open spec fn type_hit(cfg: &Config, matches: Seq<bool>, i: int) -> bool {
    exists|k: int, q: int|
        0 <= k < session_types(cfg.custom_sessions@[i]).len() && #[trigger] first_named(
            cfg,
            session_types(cfg.custom_sessions@[i])[k],
            q,
        ) && matches[q]
}

/// `i` is the first session that names a matching type.
pub open spec fn first_typed(cfg: &Config, matches: Seq<bool>, i: int) -> bool {
    &&& 0 <= i < cfg.custom_sessions@.len()
    &&& type_hit(cfg, matches, i)
    &&& forall|k: int| 0 <= k < i ==> !type_hit(cfg, matches, k)
}

/// The `j`-th path of session `i` is a non-empty prefix of the project's path.
pub open spec fn prefix_hit(
    path: Seq<Seq<char>>,
    exp: Seq<Seq<PathPartsView>>,
    i: int,
    j: int,
) -> bool {
    &&& 0 <= i < exp.len()
    &&& 0 <= j < exp[i].len()
    &&& exp[i][j].components.is_prefix_of(path)
    &&& exp[i][j].byte_len > 0
}

/// Position `(a, b)` comes before `(i, j)` in the order the paths are read.
pub open spec fn before(a: int, b: int, i: int, j: int) -> bool {
    a < i || (a == i && b < j)
}

/// `(i, j)` is the longest prefix path, the first one read among equals.
pub open spec fn best_prefix(
    path: Seq<Seq<char>>,
    exp: Seq<Seq<PathPartsView>>,
    i: int,
    j: int,
) -> bool {
    &&& prefix_hit(path, exp, i, j)
    &&& forall|a: int, b: int|
        #[trigger] prefix_hit(path, exp, a, b) ==> exp[a][b].byte_len <= exp[i][j].byte_len
    &&& forall|a: int, b: int|
        #[trigger] prefix_hit(path, exp, a, b) && before(a, b, i, j) ==> exp[a][b].byte_len
            < exp[i][j].byte_len
}

/// Session `i` holds the best prefix path.
pub open spec fn prefix_winner(path: Seq<Seq<char>>, exp: Seq<Seq<PathPartsView>>, i: int) -> bool {
    exists|j: int| best_prefix(path, exp, i, j)
}

/// The session for a project: first one whose path is the project's path;
/// else the first one that names a matching project type; else the one
/// with the longest path that is a prefix of the project's path; else the
/// default session.
pub open spec fn session_choice(
    cfg: &Config,
    path: Seq<Seq<char>>,
    exp: Seq<Seq<PathPartsView>>,
    matches: Seq<bool>,
) -> SessionChoice {
    if exists|i: int| first_exact(path, exp, i) {
        SessionChoice::Custom((choose|i: int| first_exact(path, exp, i)) as usize)
    } else if exists|i: int| first_typed(cfg, matches, i) {
        SessionChoice::Custom((choose|i: int| first_typed(cfg, matches, i)) as usize)
    } else if exists|i: int, j: int| best_prefix(path, exp, i, j) {
        SessionChoice::Custom(
            (choose|i: int| prefix_winner(path, exp, i)) as usize,
        )
    } else if cfg.default_session is Some {
        SessionChoice::DefaultSession
    } else {
        SessionChoice::Unmatched
    }
}

/// The session that a choice stands for.
pub open spec fn chosen_session(cfg: &Config, c: SessionChoice) -> Option<Session> {
    match c {
        SessionChoice::Custom(i) => Some(cfg.custom_sessions@[i as int]),
        SessionChoice::DefaultSession => cfg.default_session,
        SessionChoice::Unmatched => None,
    }
}

/// `e` is the path `p` with `~` expanded for some home directory.
pub open spec fn expanded_from(p: Seq<char>, e: PathPartsView) -> bool {
    exists|h: Option<Seq<char>>| e == parts_of(#[trigger] tilde_with_home(p, h))
}

/// Each `exp[i][j]` is the `j`-th path of session `i`, expanded with some
/// home directory.
pub open spec fn expansions_of(cfg: &Config, exp: Seq<Seq<PathPartsView>>) -> bool {
    &&& expansions_fit(cfg, exp)
    &&& forall|i: int, j: int|
        0 <= i < exp.len() && 0 <= j < exp[i].len() ==> expanded_from(
            session_paths(cfg.custom_sessions@[i])[j],
            #[trigger] exp[i][j],
        )
}

/// `exp[i][j]` is the `j`-th path of session `i` with `~` expanded to
/// `home`.
pub open spec fn expansions_with_home(
    cfg: &Config,
    exp: Seq<Seq<PathPartsView>>,
    home: Option<Seq<char>>,
) -> bool {
    &&& expansions_fit(cfg, exp)
    &&& forall|i: int, j: int|
        0 <= i < exp.len() && 0 <= j < exp[i].len() ==> #[trigger] exp[i][j] == parts_of(
            tilde_with_home(session_paths(cfg.custom_sessions@[i])[j], home),
        )
}

proof fn lemma_expansions_with_home(cfg: &Config, exp: Seq<Seq<PathPartsView>>, home: Option<Seq<char>>)
    requires
        expansions_with_home(cfg, exp, home),
    ensures
        expansions_of(cfg, exp),
{
    assert forall|i: int, j: int|
        0 <= i < exp.len() && 0 <= j < exp[i].len() implies expanded_from(
            session_paths(cfg.custom_sessions@[i])[j],
            #[trigger] exp[i][j],
        ) by {
        let p = session_paths(cfg.custom_sessions@[i])[j];
        assert(exp[i][j] == parts_of(tilde_with_home(p, home)));
    }
}

proof fn lemma_first_exact_unique(path: Seq<Seq<char>>, exp: Seq<Seq<PathPartsView>>, i: int, k: int)
    requires
        first_exact(path, exp, i),
        first_exact(path, exp, k),
    ensures
        i == k,
{
    if i < k {
        assert(!exact_hit(path, exp, i));
    }
    if k < i {
        assert(!exact_hit(path, exp, k));
    }
}

proof fn lemma_first_typed_unique(cfg: &Config, m: Seq<bool>, i: int, k: int)
    requires
        first_typed(cfg, m, i),
        first_typed(cfg, m, k),
    ensures
        i == k,
{
    if i < k {
        assert(!type_hit(cfg, m, i));
    }
    if k < i {
        assert(!type_hit(cfg, m, k));
    }
}

proof fn lemma_best_prefix_unique(
    path: Seq<Seq<char>>,
    exp: Seq<Seq<PathPartsView>>,
    i: int,
    j: int,
    a: int,
    b: int,
)
    requires
        best_prefix(path, exp, i, j),
        best_prefix(path, exp, a, b),
    ensures
        i == a && j == b,
{
    assert(prefix_hit(path, exp, a, b));
    assert(prefix_hit(path, exp, i, j));
    if before(a, b, i, j) {
        assert(exp[a][b].byte_len < exp[i][j].byte_len);
    } else if before(i, j, a, b) {
        assert(exp[i][j].byte_len < exp[a][b].byte_len);
    }
}

impl Config {
    /// Checks a configuration just read: `folders.search_dirs` must not be
    /// empty.
    pub fn validate(self) -> (r: Result<Config, ConfigError>)
        ensures
            match r {
                Ok(c) => c == self && self.folders.search_dirs.len() > 0,
                Err(e) => e is EmptySearchDirs && self.folders.search_dirs.len() == 0,
            },
    {
        if self.folders.search_dirs.len() == 0 {
            return Err(ConfigError::EmptySearchDirs);
        }
        Ok(self)
    }

    /// The first project type called `name`.
    pub fn find_project_type(&self, name: &String) -> (r: Option<usize>)
        ensures
            match r {
                Some(q) => first_named(self, name@, q as int),
                None => forall|q: int|
                    0 <= q < self.project_types@.len() ==> #[trigger] self.project_types@[q].name@
                        != name@,
            },
    {
        let mut q: usize = 0;
        while q < self.project_types.len()
            invariant
                q <= self.project_types.len(),
                forall|k: int| 0 <= k < q ==> #[trigger] self.project_types@[k].name@ != name@,
            decreases self.project_types.len() - q,
        {
            if self.project_types[q].name == *name {
                return Some(q);
            }
            q = q + 1;
        }
        None
    }

    /// The first session with a path that is the project's path.
    pub fn exact_session(&self, path: &Vec<String>, expanded: &Vec<Vec<PathParts>>) -> (r:
        Option<usize>)
        requires
            expansions_fit(self, expansion_views(expanded@)),
        ensures
            match r {
                Some(i) => first_exact(texts(path@), expansion_views(expanded@), i as int),
                None => forall|i: int|
                    0 <= i < expanded@.len() ==> !exact_hit(
                        texts(path@),
                        expansion_views(expanded@),
                        i,
                    ),
            },
    {
        let ghost p = texts(path@);
        let ghost exp = expansion_views(expanded@);
        let mut i: usize = 0;
        while i < expanded.len()
            invariant
                i <= expanded.len(),
                p == texts(path@),
                exp == expansion_views(expanded@),
                forall|k: int| 0 <= k < i ==> !exact_hit(p, exp, k),
            decreases expanded.len() - i,
        {
            let row = &expanded[i];
            let mut j: usize = 0;
            while j < row.len()
                invariant
                    j <= row.len(),
                    i < expanded.len(),
                    *row == expanded@[i as int],
                    p == texts(path@),
                    exp == expansion_views(expanded@),
                    exp.len() == expanded@.len(),
                    forall|k: int| 0 <= k < i ==> !exact_hit(p, exp, k),
                    forall|b: int| 0 <= b < j ==> #[trigger] exp[i as int][b].components != p,
                decreases row.len() - j,
            {
                if same_path(&row[j].components, path) {
                    proof {
                        assert(exp[i as int][j as int].components == p);
                        assert(exact_hit(p, exp, i as int));
                    }
                    return Some(i);
                }
                j = j + 1;
            }
            proof {
                if exact_hit(p, exp, i as int) {
                    let b = choose|b: int|
                        0 <= b < exp[i as int].len() && #[trigger] exp[i as int][b].components
                            == p;
                    assert(exp[i as int][b].components != p);
                }
            }
            i = i + 1;
        }
        None
    }

    /// The first session that names a project type that matched.
    pub fn typed_session(&self, matches: &Vec<bool>) -> (r: Option<usize>)
        requires
            matches.len() == self.project_types.len(),
        ensures
            match r {
                Some(i) => first_typed(self, matches@, i as int),
                None => forall|i: int|
                    0 <= i < self.custom_sessions@.len() ==> !type_hit(self, matches@, i),
            },
    {
        let mut i: usize = 0;
        while i < self.custom_sessions.len()
            invariant
                i <= self.custom_sessions.len(),
                matches.len() == self.project_types.len(),
                forall|k: int| 0 <= k < i ==> !type_hit(self, matches@, k),
            decreases self.custom_sessions.len() - i,
        {
            let session = &self.custom_sessions[i];
            match &session.types {
                Some(types) => {
                    let mut k: usize = 0;
                    while k < types.len()
                        invariant
                            k <= types.len(),
                            i < self.custom_sessions.len(),
                            *session == self.custom_sessions@[i as int],
                            session.types == Some(*types),
                            matches.len() == self.project_types.len(),
                            forall|c: int| 0 <= c < i ==> !type_hit(self, matches@, c),
                            forall|a: int, q: int|
                                0 <= a < k && #[trigger] first_named(
                                    self,
                                    session_types(*session)[a],
                                    q,
                                ) ==> !matches@[q],
                        decreases types.len() - k,
                    {
                        match self.find_project_type(&types[k]) {
                            Some(q) => {
                                if matches[q] {
                                    proof {
                                        assert(session_types(*session)[k as int] == types@[k as int]@);
                                        assert(first_named(self, session_types(*session)[k as int], q as int));
                                        assert(type_hit(self, matches@, i as int));
                                    }
                                    return Some(i);
                                }
                                proof {
                                    assert forall|q2: int|
                                        #[trigger] first_named(
                                            self,
                                            session_types(*session)[k as int],
                                            q2,
                                        ) implies !matches@[q2] by {
                                        assert(session_types(*session)[k as int] == types@[k as int]@);
                                        if q2 < q {
                                            assert(self.project_types@[q2].name@ != types@[k as int]@);
                                        } else if q < q2 {
                                            assert(self.project_types@[q as int].name@ != types@[k as int]@);
                                        }
                                    }
                                }
                            },
                            None => {
                                proof {
                                    assert forall|q2: int|
                                        #[trigger] first_named(
                                            self,
                                            session_types(*session)[k as int],
                                            q2,
                                        ) implies !matches@[q2] by {
                                        assert(session_types(*session)[k as int] == types@[k as int]@);
                                        assert(self.project_types@[q2].name@ != types@[k as int]@);
                                    }
                                }
                            },
                        }
                        k = k + 1;
                    }
                    proof {
                        if type_hit(self, matches@, i as int) {
                            let (a, q) = choose|a: int, q: int|
                                0 <= a < session_types(self.custom_sessions@[i as int]).len()
                                    && #[trigger] first_named(
                                    self,
                                    session_types(self.custom_sessions@[i as int])[a],
                                    q,
                                ) && matches@[q];
                            assert(session_types(*session).len() == types@.len());
                            assert(!matches@[q]);
                        }
                    }
                },
                None => {
                    assert(session_types(*session).len() == 0);
                },
            }
            i = i + 1;
        }
        None
    }

    /// The session with the longest path that is a prefix of the project's
    /// path (the first of equals).
    pub fn prefix_session(&self, path: &Vec<String>, expanded: &Vec<Vec<PathParts>>) -> (r:
        Option<usize>)
        ensures
            match r {
                Some(i) => prefix_winner(texts(path@), expansion_views(expanded@), i as int),
                None => forall|a: int, b: int|
                    !prefix_hit(texts(path@), expansion_views(expanded@), a, b),
            },
    {
        let ghost p = texts(path@);
        let ghost exp = expansion_views(expanded@);
        let mut best: Option<(usize, usize)> = None;
        let mut longest: usize = 0;
        let mut i: usize = 0;
        while i < expanded.len()
            invariant
                i <= expanded.len(),
                p == texts(path@),
                exp == expansion_views(expanded@),
                exp.len() == expanded@.len(),
                match best {
                    None => longest == 0 && forall|a: int, b: int|
                        #[trigger] prefix_hit(p, exp, a, b) ==> !(a < i),
                    Some((bi, bj)) => {
                        &&& prefix_hit(p, exp, bi as int, bj as int)
                        &&& longest == exp[bi as int][bj as int].byte_len
                        &&& bi < i
                        &&& forall|a: int, b: int|
                            #[trigger] prefix_hit(p, exp, a, b) && a < i ==> exp[a][b].byte_len
                                <= longest
                        &&& forall|a: int, b: int|
                            #[trigger] prefix_hit(p, exp, a, b) && before(
                                a,
                                b,
                                bi as int,
                                bj as int,
                            ) ==> exp[a][b].byte_len < longest
                    },
                },
            decreases expanded.len() - i,
        {
            let row = &expanded[i];
            let mut j: usize = 0;
            while j < row.len()
                invariant
                    j <= row.len(),
                    i < expanded.len(),
                    *row == expanded@[i as int],
                    p == texts(path@),
                    exp == expansion_views(expanded@),
                    exp.len() == expanded@.len(),
                    exp[i as int].len() == row@.len(),
                    match best {
                        None => longest == 0 && forall|a: int, b: int|
                            #[trigger] prefix_hit(p, exp, a, b) ==> !before(a, b, i as int, j as int),
                        Some((bi, bj)) => {
                            &&& prefix_hit(p, exp, bi as int, bj as int)
                            &&& longest == exp[bi as int][bj as int].byte_len
                            &&& before(bi as int, bj as int, i as int, j as int)
                            &&& forall|a: int, b: int|
                                #[trigger] prefix_hit(p, exp, a, b) && before(a, b, i as int, j as int)
                                    ==> exp[a][b].byte_len <= longest
                            &&& forall|a: int, b: int|
                                #[trigger] prefix_hit(p, exp, a, b) && before(
                                    a,
                                    b,
                                    bi as int,
                                    bj as int,
                                ) ==> exp[a][b].byte_len < longest
                        },
                    },
                decreases row.len() - j,
            {
                let entry = &row[j];
                assert(exp[i as int][j as int] == entry@);
                if starts_with_path(path, &entry.components) {
                    let len = entry.byte_len;
                    if len > longest {
                        longest = len;
                        best = Some((i, j));
                    }
                }
                j = j + 1;
            }
            i = i + 1;
        }
        match best {
            Some((bi, bj)) => {
                proof {
                    assert(best_prefix(p, exp, bi as int, bj as int));
                }
                Some(bi)
            },
            None => None,
        }
    }

    /// Which session applies to a project, given the facts that the
    /// standard library and the file system give about it: the project
    /// path's components, each session path expanded, and for each project
    /// type whether it matched.
    pub fn choose_session(
        &self,
        path: &Vec<String>,
        expanded: &Vec<Vec<PathParts>>,
        matches: &Vec<bool>,
    ) -> (r: SessionChoice)
        requires
            expansions_fit(self, expansion_views(expanded@)),
            matches.len() == self.project_types.len(),
        ensures
            r == session_choice(self, texts(path@), expansion_views(expanded@), matches@),
            r matches SessionChoice::Custom(i) ==> i < self.custom_sessions.len(),
    {
        let ghost p = texts(path@);
        let ghost exp = expansion_views(expanded@);
        match self.exact_session(path, expanded) {
            Some(i) => {
                proof {
                    let k = choose|k: int| first_exact(p, exp, k);
                    lemma_first_exact_unique(p, exp, i as int, k);
                }
                return SessionChoice::Custom(i);
            },
            None => {},
        }
        match self.typed_session(matches) {
            Some(i) => {
                proof {
                    let k = choose|k: int| first_typed(self, matches@, k);
                    lemma_first_typed_unique(self, matches@, i as int, k);
                }
                return SessionChoice::Custom(i);
            },
            None => {},
        }
        match self.prefix_session(path, expanded) {
            Some(i) => {
                proof {
                    let j = choose|j: int| best_prefix(p, exp, i as int, j);
                    let k = choose|k: int| prefix_winner(p, exp, k);
                    let b = choose|b: int| best_prefix(p, exp, k, b);
                    lemma_best_prefix_unique(p, exp, i as int, j, k, b);
                }
                return SessionChoice::Custom(i);
            },
            None => {},
        }
        if self.default_session.is_some() {
            SessionChoice::DefaultSession
        } else {
            SessionChoice::Unmatched
        }
    }
}


/// `m` holds one answer per project type to whether the project matched
/// it, and a type that lists no file did not match.
pub open spec fn match_answers(cfg: &Config, m: Seq<bool>) -> bool {
    &&& m.len() == cfg.project_types@.len()
    &&& forall|q: int|
        0 <= q < m.len() && cfg.project_types@[q].files.len() == 0 ==> !#[trigger] m[q]
}

/// The session a reference points at, if any.
pub open spec fn deref_session(r: Option<&Session>) -> Option<Session> {
    match r {
        Some(s) => Some(*s),
        None => None,
    }
}

impl Config {
    /// Every custom session's paths, with `~` expanded, as components and
    /// byte lengths.
    pub fn expand_session_paths(&self) -> (r: Vec<Vec<PathParts>>)
        ensures
            expansions_of(self, expansion_views(r@)),
            exists|h: Option<String>|
                #![trigger call_ensures(home_dir, (), h)]
                call_ensures(home_dir, (), h) && expansions_with_home(
                    self,
                    expansion_views(r@),
                    home_text(h),
                ),
    {
        let home = current_home();
        let ghost hv = home_text(home);
        let mut r: Vec<Vec<PathParts>> = Vec::new();
        let mut i: usize = 0;
        while i < self.custom_sessions.len()
            invariant
                i <= self.custom_sessions.len(),
                r.len() == i,
                forall|a: int|
                    0 <= a < i ==> #[trigger] expansion_views(r@)[a].len() == session_paths(
                        self.custom_sessions@[a],
                    ).len(),
                forall|a: int, b: int|
                    0 <= a < i && 0 <= b < expansion_views(r@)[a].len() ==> #[trigger] expansion_views(
                        r@,
                    )[a][b] == parts_of(
                        tilde_with_home(session_paths(self.custom_sessions@[a])[b], hv),
                    ),
                hv == home_text(home),
            decreases self.custom_sessions.len() - i,
        {
            let mut row: Vec<PathParts> = Vec::new();
            match &self.custom_sessions[i].paths {
                Some(ps) => {
                    let mut j: usize = 0;
                    while j < ps.len()
                        invariant
                            j <= ps.len(),
                            i < self.custom_sessions.len(),
                            self.custom_sessions@[i as int].paths == Some(*ps),
                            row.len() == j,
                            forall|b: int|
                                0 <= b < j ==> #[trigger] row@[b]@ == parts_of(
                                    tilde_with_home(ps@[b]@, hv),
                                ),
                            hv == home_text(home),
                        decreases ps.len() - j,
                    {
                        let e = expand_with_home(ps[j].as_str(), &home);
                        let parts = PathParts::of(e.as_str());
                        let ghost prev = row@;
                        row.push(parts);
                        proof {
                            assert forall|b: int| 0 <= b < j + 1 implies #[trigger] row@[b]@
                                == parts_of(tilde_with_home(ps@[b]@, hv)) by {
                                if b < j {
                                    assert(row@[b] == prev[b]);
                                }
                            }
                        }
                        j = j + 1;
                    }
                    assert(session_paths(self.custom_sessions@[i as int]) == texts(ps@));
                },
                None => {},
            }
            let ghost old_r = r@;
            r.push(row);
            proof {
                let ev = expansion_views(r@);
                assert(ev[i as int] == row@.map_values(|p: PathParts| p@));
                assert forall|a: int| 0 <= a < i + 1 implies #[trigger] ev[a].len()
                    == session_paths(self.custom_sessions@[a]).len() by {
                    if a < i {
                        assert(ev[a] == expansion_views(old_r)[a]);
                    }
                }
                assert forall|a: int, b: int|
                    0 <= a < i + 1 && 0 <= b < ev[a].len() implies #[trigger] ev[a][b]
                        == parts_of(tilde_with_home(session_paths(self.custom_sessions@[a])[b], hv))
                    by {
                    if a < i {
                        assert(ev[a] == expansion_views(old_r)[a]);
                    } else {
                        assert(ev[a][b] == row@[b]@);
                    }
                }
            }
            i = i + 1;
        }
        proof {
            lemma_expansions_with_home(self, expansion_views(r@), hv);
        }
        r
    }

    /// For each project type, whether the project at `path` matches it: the
    /// file system's answer for that type's files (see `type_answer`).
    pub fn type_matches(&self, path: &str) -> (r: Vec<bool>)
        ensures
            r.len() == self.project_types.len(),
            forall|q: int|
                0 <= q < r.len() && self.project_types@[q].files.len() == 0 ==> !#[trigger] r@[q],
            forall|q: int|
                0 <= q < r.len() ==> type_answer(path@, self.project_types@[q].files@, #[trigger] r@[q]),
    {
        let mut r: Vec<bool> = Vec::new();
        let mut q: usize = 0;
        while q < self.project_types.len()
            invariant
                q <= self.project_types.len(),
                r.len() == q,
                forall|a: int|
                    0 <= a < q && self.project_types@[a].files.len() == 0 ==> !#[trigger] r@[a],
                forall|a: int|
                    0 <= a < q ==> type_answer(path@, self.project_types@[a].files@, #[trigger] r@[a]),
            decreases self.project_types.len() - q,
        {
            let m = self.project_types[q].matches(path);
            let ghost prev = r@;
            r.push(m);
            assert(forall|a: int| 0 <= a < q ==> r@[a] == prev[a]);
            q = q + 1;
        }
        r
    }

    /// The session layout for the project at `path`: the first session
    /// listing that path; else the first naming a project type that the
    /// project matches; else the one listing the longest path that contains
    /// the project; else the default session. Where `~` leads to is not
    /// known before the call, so the contract says that the answer is the
    /// one `session_choice` gives for some home directory; where no session
    /// lists the project's own path, each project type's answer is the file
    /// system's answer for that type's files (`type_answer`).
    pub fn get_session_for_path(&self, path: &str) -> (r: Option<&Session>)
        ensures
            exists|exp: Seq<Seq<PathPartsView>>, m: Seq<bool>|
                #![trigger session_choice(self, path_components(path@), exp, m)]
                expansions_of(self, exp) && match_answers(self, m) && deref_session(r)
                    == chosen_session(self, session_choice(self, path_components(path@), exp, m))
                    && ((forall|i: int|
                    0 <= i < exp.len() ==> !exact_hit(path_components(path@), exp, i))
                    ==> forall|q: int|
                    0 <= q < m.len() ==> type_answer(
                        path@,
                        self.project_types@[q].files@,
                        #[trigger] m[q],
                    )),
            exists|exp: Seq<Seq<PathPartsView>>, m: Seq<bool>, h: Option<String>|
                #![trigger session_choice(self, path_components(path@), exp, m), call_ensures(home_dir, (), h)]
                call_ensures(home_dir, (), h) && expansions_with_home(self, exp, home_text(h))
                    && match_answers(self, m) && deref_session(r) == chosen_session(
                    self,
                    session_choice(self, path_components(path@), exp, m),
                ),
    {
        let parts = PathParts::of(path);
        let expanded = self.expand_session_paths();
        let ghost exp0 = expansion_views(expanded@);
        let matches = match self.exact_session(&parts.components, &expanded) {
            Some(i) => {
                assert(exact_hit(texts(parts.components@), exp0, i as int));
                let mut none: Vec<bool> = Vec::new();
                let mut q: usize = 0;
                while q < self.project_types.len()
                    invariant
                        q <= self.project_types.len(),
                        none.len() == q,
                        forall|a: int| 0 <= a < q ==> !#[trigger] none@[a],
                    decreases self.project_types.len() - q,
                {
                    none.push(false);
                    q = q + 1;
                }
                none
            },
            None => self.type_matches(path),
        };
        let choice = self.choose_session(&parts.components, &expanded, &matches);
        let r = match choice {
            SessionChoice::Custom(i) => Some(&self.custom_sessions[i]),
            SessionChoice::DefaultSession => self.default_session.as_ref(),
            SessionChoice::Unmatched => None,
        };
        proof {
            let exp = expansion_views(expanded@);
            assert(texts(parts.components@) == path_components(path@));
            assert(expansions_of(self, exp) && match_answers(self, matches@)
                && deref_session(r) == chosen_session(
                self,
                session_choice(self, path_components(path@), exp, matches@),
            ));
            let h = choose|h: Option<String>|
                #![trigger call_ensures(home_dir, (), h)]
                call_ensures(home_dir, (), h) && expansions_with_home(self, exp, home_text(h));
            assert(call_ensures(home_dir, (), h) && expansions_with_home(self, exp, home_text(h)));
            assert((forall|i: int|
                0 <= i < exp.len() ==> !exact_hit(path_components(path@), exp, i))
                ==> forall|q: int|
                0 <= q < matches@.len() ==> type_answer(
                    path@,
                    self.project_types@[q].files@,
                    #[trigger] matches@[q],
                ));
        }
        r
    }
}

/// The places where the configuration file is looked for, in order: the
/// path given on the command line, `config.toml` under
/// `$SEELA_CONFIG_HOME`, `seela/config.toml` under `$XDG_CONFIG_HOME`, and
/// `.config/seela/config.toml` under the home directory (each where known).
pub open spec fn config_candidates_spec(
    cli_path: Option<Seq<char>>,
    seela_config_home: Option<Seq<char>>,
    xdg_config_home: Option<Seq<char>>,
    home: Option<Seq<char>>,
) -> Seq<Seq<char>> {
    let a: Seq<Seq<char>> = match cli_path {
        Some(p) => seq![p],
        None => Seq::empty(),
    };
    let b: Seq<Seq<char>> = match seela_config_home {
        Some(d) => seq![path_join(d, "config.toml"@)],
        None => Seq::empty(),
    };
    let c: Seq<Seq<char>> = match xdg_config_home {
        Some(d) => seq![path_join(d, "seela/config.toml"@)],
        None => Seq::empty(),
    };
    let e: Seq<Seq<char>> = match home {
        Some(d) => seq![path_join(d, ".config/seela/config.toml"@)],
        None => Seq::empty(),
    };
    a + b + c + e
}

/// The text of an optional string.
pub open spec fn opt_text(s: Option<String>) -> Option<Seq<char>> {
    match s {
        Some(t) => Some(t@),
        None => None,
    }
}

/// The places where the configuration file is looked for, in order.
pub fn config_candidates(
    cli_path: Option<String>,
    seela_config_home: Option<String>,
    xdg_config_home: Option<String>,
    home: Option<String>,
) -> (r: Vec<String>)
    ensures
        texts(r@) == config_candidates_spec(
            opt_text(cli_path),
            opt_text(seela_config_home),
            opt_text(xdg_config_home),
            opt_text(home),
        ),
{
    let ghost views = (
        opt_text(cli_path),
        opt_text(seela_config_home),
        opt_text(xdg_config_home),
        opt_text(home),
    );
    let mut r: Vec<String> = Vec::new();
    match cli_path {
        Some(p) => r.push(p),
        None => {},
    }
    let ghost a = texts(r@);
    match seela_config_home {
        Some(d) => r.push(join(d.as_str(), "config.toml")),
        None => {},
    }
    let ghost b = texts(r@);
    match xdg_config_home {
        Some(d) => r.push(join(d.as_str(), "seela/config.toml")),
        None => {},
    }
    let ghost c = texts(r@);
    match home {
        Some(d) => r.push(join(d.as_str(), ".config/seela/config.toml")),
        None => {},
    }
    proof {
        let spec_a: Seq<Seq<char>> = match views.0 {
            Some(p) => seq![p],
            None => Seq::empty(),
        };
        assert(a =~= spec_a);
        assert(texts(r@) =~= config_candidates_spec(views.0, views.1, views.2, views.3));
    }
    r
}

/// The first of `candidates` whose entry in `exists` is `true`; places past
/// the end of `exists` were not looked at.
pub open spec fn first_existing_spec(candidates: Seq<Seq<char>>, exists: Seq<bool>) -> Option<Seq<char>>
    decreases candidates.len(),
{
    if candidates.len() == 0 || exists.len() == 0 {
        None
    } else if exists[0] {
        Some(candidates[0])
    } else {
        first_existing_spec(candidates.drop_first(), exists.drop_first())
    }
}

/// The first candidate that `exists` says is there.
pub fn first_existing(candidates: &Vec<String>, exists: &Vec<bool>) -> (r: Option<String>)
    ensures
        opt_text(r) == first_existing_spec(texts(candidates@), exists@),
{
    let mut i: usize = 0;
    proof {
        assert(texts(candidates@).skip(0) =~= texts(candidates@));
        assert(exists@.skip(0) =~= exists@);
    }
    while i < candidates.len() && i < exists.len()
        invariant
            i <= candidates.len(),
            i <= exists.len(),
            texts(candidates@).len() == candidates.len(),
            first_existing_spec(texts(candidates@), exists@) == first_existing_spec(
                texts(candidates@).skip(i as int),
                exists@.skip(i as int),
            ),
        decreases candidates.len() - i,
    {
        let ghost c = texts(candidates@).skip(i as int);
        let ghost e = exists@.skip(i as int);
        if exists[i] {
            let found = candidates[i].clone();
            proof {
                assert(e[0] == exists@[i as int]);
                assert(c[0] == found@);
            }
            return Some(found);
        }
        proof {
            assert(e[0] == exists@[i as int]);
            assert(c.drop_first() =~= texts(candidates@).skip(i + 1));
            assert(e.drop_first() =~= exists@.skip(i + 1));
        }
        i = i + 1;
    }
    proof {
        assert(texts(candidates@).skip(i as int).len() == 0 || exists@.skip(i as int).len() == 0);
    }
    None
}

/// Finds the configuration file: the first of the candidate places that
/// exists. The file system is asked about the places of
/// `config_candidates_spec`, in order and up to the first that exists, and
/// the answer is what `first_existing` makes of its answers.
pub fn get_config_path(
    cli_path: Option<String>,
    seela_config_home: Option<String>,
    xdg_config_home: Option<String>,
    home: Option<String>,
) -> (r: Option<String>)
    ensures
        exists|places: Seq<String>, e: Seq<bool>|
            #![trigger answers_in_order(exists_at, places, e)]
            texts(places) == config_candidates_spec(
                opt_text(cli_path),
                opt_text(seela_config_home),
                opt_text(xdg_config_home),
                opt_text(home),
            ) && answers_in_order(exists_at, places, e) && opt_text(r) == first_existing_spec(
                texts(places),
                e,
            ),
{
    let ghost cli = opt_text(cli_path);
    let ghost seela = opt_text(seela_config_home);
    let ghost xdg = opt_text(xdg_config_home);
    let ghost h = opt_text(home);
    let candidates = config_candidates(cli_path, seela_config_home, xdg_config_home, home);
    let exists = ask_in_order(&candidates, exists_at);
    let r = first_existing(&candidates, &exists);
    proof {
        assert(answers_in_order(exists_at, candidates@, exists@));
        assert(texts(candidates@) == config_candidates_spec(cli, seela, xdg, h));
    }
    r
}

/// When the places are asked in order up to the first that exists, the
/// configuration file found is the place of that first yes, and none is
/// found only when every place was asked and none exists.
pub proof fn config_path_is_first_found(places: Seq<Seq<char>>, e: Seq<bool>)
    requires
        stops_at_first_yes(places.len(), e),
    ensures
        first_existing_spec(places, e) is None <==> (e.len() == places.len() && forall|i: int|
            0 <= i < e.len() ==> !#[trigger] e[i]),
        first_existing_spec(places, e) matches Some(c) ==> e.len() > 0 && e.last() && c
            == places[e.len() - 1],
    decreases places.len(),
{
    if places.len() == 0 || e.len() == 0 {
    } else if e[0] {
        assert(e.len() == 1) by {
            if e.len() > 1 {
                assert(!e[0]);
            }
        }
    } else {
        let p2 = places.drop_first();
        let e2 = e.drop_first();
        assert forall|i: int| 0 <= i < e2.len() - 1 implies !#[trigger] e2[i] by {
            assert(e2[i] == e[i + 1]);
        }
        if e2.len() < p2.len() {
            assert(e2.len() > 0) by {
                if e2.len() == 0 {
                    assert(e.len() == 1);
                    assert(e.last() == e[0]);
                }
            }
            assert(e2.last() == e.last());
        }
        config_path_is_first_found(p2, e2);
        if first_existing_spec(places, e) is None {
            assert forall|i: int| 0 <= i < e.len() implies !#[trigger] e[i] by {
                if i > 0 {
                    assert(e[i] == e2[i - 1]);
                }
            }
        } else {
            assert(!(e.len() == places.len() && forall|i: int| 0 <= i < e.len() ==> !#[trigger] e[i]))
                by {
                let c = first_existing_spec(p2, e2).unwrap();
                assert(e2.last());
                assert(e.last() == e2.last());
                assert(e[e.len() - 1] == e.last());
            }
            assert(e.last() == e2.last());
            assert(places[e.len() - 1] == p2[e2.len() - 1]);
        }
    }
}

proof fn lemma_some_first_exact(path: Seq<Seq<char>>, exp: Seq<Seq<PathPartsView>>, i: int)
    requires
        0 <= i < exp.len(),
        exact_hit(path, exp, i),
    ensures
        exists|c: int| c <= i && first_exact(path, exp, c),
    decreases i,
{
    if forall|k: int| 0 <= k < i ==> !exact_hit(path, exp, k) {
        assert(first_exact(path, exp, i));
    } else {
        let k = choose|k: int| 0 <= k < i && exact_hit(path, exp, k);
        lemma_some_first_exact(path, exp, k);
    }
}

proof fn lemma_some_first_typed(cfg: &Config, m: Seq<bool>, i: int)
    requires
        0 <= i < cfg.custom_sessions@.len(),
        type_hit(cfg, m, i),
    ensures
        exists|c: int| c <= i && first_typed(cfg, m, c),
    decreases i,
{
    if forall|k: int| 0 <= k < i ==> !type_hit(cfg, m, k) {
        assert(first_typed(cfg, m, i));
    } else {
        let k = choose|k: int| 0 <= k < i && type_hit(cfg, m, k);
        lemma_some_first_typed(cfg, m, k);
    }
}

/// A session that lists the project's own path is preferred to every
/// other rule: the session chosen is one that lists the path, and none
/// listed before it does.
pub proof fn exact_path_comes_first(
    cfg: &Config,
    path: Seq<Seq<char>>,
    exp: Seq<Seq<PathPartsView>>,
    m: Seq<bool>,
    i: int,
)
    requires
        expansions_fit(cfg, exp),
        0 <= i < exp.len(),
        exact_hit(path, exp, i),
    ensures
        session_choice(cfg, path, exp, m) matches SessionChoice::Custom(c) && c <= i
            && first_exact(path, exp, c as int),
{
    assert(cfg.custom_sessions@.len() == cfg.custom_sessions.len());
    lemma_some_first_exact(path, exp, i);
    let c = choose|c: int| first_exact(path, exp, c);
    let c0 = choose|c0: int| c0 <= i && first_exact(path, exp, c0);
    lemma_first_exact_unique(path, exp, c, c0);
}

/// A session path written with `~` is compared as the home directory
/// followed by the rest of the path: where `~/rest` is listed by session
/// `i`, the home directory is `home`, and the project's path is the same
/// path as `home` + `/rest`, a session listing the project's path is
/// chosen, `i` or one before it.
pub proof fn home_relative_session_paths_match(
    cfg: &Config,
    path: Seq<char>,
    exp: Seq<Seq<PathPartsView>>,
    m: Seq<bool>,
    home: Seq<char>,
    i: int,
    j: int,
    rest: Seq<char>,
)
    requires
        expansions_with_home(cfg, exp, Some(home)),
        0 <= i < exp.len(),
        0 <= j < exp[i].len(),
        session_paths(cfg.custom_sessions@[i])[j] == seq!['~'] + rest,
        rest.len() == 0 || rest[0] == '/',
        path_components(path) == path_components(home + rest),
    ensures
        session_choice(cfg, path_components(path), exp, m) matches SessionChoice::Custom(c) && c <= i,
{
    let p = session_paths(cfg.custom_sessions@[i])[j];
    assert(p.skip(1) =~= rest);
    assert(tilde_with_home(p, Some(home)) == home + rest);
    assert(exp[i][j] == parts_of(home + rest));
    assert(exp[i][j].components == path_components(path));
    assert(exact_hit(path_components(path), exp, i));
    exact_path_comes_first(cfg, path_components(path), exp, m, i);
}

/// Where no session lists the project's own path, a session that names a
/// project type the project matches comes next: a session's `paths` and
/// `types` are alternatives, either one is enough.
pub proof fn matching_type_comes_second(
    cfg: &Config,
    path: Seq<Seq<char>>,
    exp: Seq<Seq<PathPartsView>>,
    m: Seq<bool>,
    i: int,
)
    requires
        forall|k: int| 0 <= k < exp.len() ==> !exact_hit(path, exp, k),
        0 <= i < cfg.custom_sessions@.len(),
        type_hit(cfg, m, i),
    ensures
        session_choice(cfg, path, exp, m) matches SessionChoice::Custom(c) && c <= i
            && first_typed(cfg, m, c as int),
{
    assert(cfg.custom_sessions@.len() == cfg.custom_sessions.len());
    lemma_some_first_typed(cfg, m, i);
    let c = choose|c: int| first_typed(cfg, m, c);
    let c0 = choose|c0: int| c0 <= i && first_typed(cfg, m, c0);
    lemma_first_typed_unique(cfg, m, c, c0);
}

/// Where no session lists the project's path, names a matching type, or
/// lists a path that contains the project, the default session applies
/// (and no session at all where there is none).
pub proof fn default_session_comes_last(
    cfg: &Config,
    path: Seq<Seq<char>>,
    exp: Seq<Seq<PathPartsView>>,
    m: Seq<bool>,
)
    requires
        forall|k: int| 0 <= k < exp.len() ==> !exact_hit(path, exp, k),
        forall|k: int| 0 <= k < cfg.custom_sessions@.len() ==> !type_hit(cfg, m, k),
        forall|a: int, b: int| !prefix_hit(path, exp, a, b),
    ensures
        session_choice(cfg, path, exp, m) == (if cfg.default_session is Some {
            SessionChoice::DefaultSession
        } else {
            SessionChoice::Unmatched
        }),
{
    if exists|i: int| first_exact(path, exp, i) {
        let i = choose|i: int| first_exact(path, exp, i);
        assert(!exact_hit(path, exp, i));
    }
    if exists|i: int| first_typed(cfg, m, i) {
        let i = choose|i: int| first_typed(cfg, m, i);
        assert(!type_hit(cfg, m, i));
    }
    if exists|i: int, j: int| best_prefix(path, exp, i, j) {
        let (i, j) = choose|i: int, j: int| best_prefix(path, exp, i, j);
        assert(prefix_hit(path, exp, i, j));
    }
}

proof fn lemma_longest_hit(path: Seq<Seq<char>>, exp: Seq<Seq<PathPartsView>>, i: int, j: int)
    requires
        prefix_hit(path, exp, i, j),
    ensures
        exists|a: int, b: int|
            #[trigger] prefix_hit(path, exp, a, b) && forall|c: int, d: int|
                #[trigger] prefix_hit(path, exp, c, d) ==> exp[c][d].byte_len <= exp[a][b].byte_len,
    decreases usize::MAX - exp[i][j].byte_len,
{
    if forall|c: int, d: int|
        #[trigger] prefix_hit(path, exp, c, d) ==> exp[c][d].byte_len <= exp[i][j].byte_len {
    } else {
        let (c, d) = choose|c: int, d: int|
            #[trigger] prefix_hit(path, exp, c, d) && exp[c][d].byte_len > exp[i][j].byte_len;
        lemma_longest_hit(path, exp, c, d);
    }
}

proof fn lemma_earliest_longest(path: Seq<Seq<char>>, exp: Seq<Seq<PathPartsView>>, i: int, j: int)
    requires
        prefix_hit(path, exp, i, j),
        forall|c: int, d: int|
            #[trigger] prefix_hit(path, exp, c, d) ==> exp[c][d].byte_len <= exp[i][j].byte_len,
    ensures
        exists|a: int, b: int| best_prefix(path, exp, a, b),
    decreases i, j,
{
    if forall|c: int, d: int|
        #[trigger] prefix_hit(path, exp, c, d) && before(c, d, i, j) ==> exp[c][d].byte_len
            < exp[i][j].byte_len {
        assert(best_prefix(path, exp, i, j));
    } else {
        let (c, d) = choose|c: int, d: int|
            #[trigger] prefix_hit(path, exp, c, d) && before(c, d, i, j) && !(exp[c][d].byte_len
                < exp[i][j].byte_len);
        lemma_earliest_longest(path, exp, c, d);
    }
}

/// Where no session lists the project's path or names a matching type, the
/// session whose path contains the project and is the longest such path
/// applies (the first listed among equally long ones).
pub proof fn longest_prefix_comes_third(
    cfg: &Config,
    path: Seq<Seq<char>>,
    exp: Seq<Seq<PathPartsView>>,
    m: Seq<bool>,
    a: int,
    b: int,
)
    requires
        expansions_fit(cfg, exp),
        forall|k: int| 0 <= k < exp.len() ==> !exact_hit(path, exp, k),
        forall|k: int| 0 <= k < cfg.custom_sessions@.len() ==> !type_hit(cfg, m, k),
        prefix_hit(path, exp, a, b),
    ensures
        session_choice(cfg, path, exp, m) matches SessionChoice::Custom(c) && prefix_winner(
            path,
            exp,
            c as int,
        ),
{
    assert(cfg.custom_sessions@.len() == cfg.custom_sessions.len());
    if exists|i: int| first_exact(path, exp, i) {
        let i = choose|i: int| first_exact(path, exp, i);
        assert(!exact_hit(path, exp, i));
    }
    if exists|i: int| first_typed(cfg, m, i) {
        let i = choose|i: int| first_typed(cfg, m, i);
        assert(!type_hit(cfg, m, i));
    }
    lemma_longest_hit(path, exp, a, b);
    let (i, j) = choose|i: int, j: int|
        #[trigger] prefix_hit(path, exp, i, j) && forall|c: int, d: int|
            #[trigger] prefix_hit(path, exp, c, d) ==> exp[c][d].byte_len <= exp[i][j].byte_len;
    lemma_earliest_longest(path, exp, i, j);
    let (x, y) = choose|x: int, y: int| best_prefix(path, exp, x, y);
    assert(prefix_winner(path, exp, x));
    let c = choose|c: int| prefix_winner(path, exp, c);
    assert(prefix_hit(path, exp, c, choose|d: int| best_prefix(path, exp, c, d)));
}

} // verus!
