//! Finding projects: which directories are skipped, which are projects,
//! and how the list is put together; and the answer to a confirmation
//! prompt.
use vstd::prelude::*;
use crate::config::Folders;
use crate::paths::{
    answers_for_each, ask_each, current_home, expand_with_home, home_dir, home_text, join, parts_of, path_components, exists_at, path_join, same_path,
    starts_with_path, texts, tilde_with_home, PathParts, PathPartsView,
};
use crate::text::{str_eq, trim, trimmed};

verus! {

/// The views of a list of `PathParts`.
pub open spec fn parts_views(v: Seq<PathParts>) -> Seq<PathPartsView> {
    v.map_values(|p: PathParts| p@)
}

/// `path` is excluded: it lies under an exclude path, and no search
/// directory that contains it is longer than the longest such exclude
/// path (a search directory inside an excluded one is still searched).
pub open spec fn excluded_spec(
    path: Seq<Seq<char>>,
    exclude: Seq<PathPartsView>,
    dirs: Seq<PathPartsView>,
) -> bool {
    exists|k: int|
        #![trigger exclude[k]]
        0 <= k < exclude.len() && exclude[k].components.is_prefix_of(path) && (forall|a: int|
            0 <= a < exclude.len() && #[trigger] exclude[a].components.is_prefix_of(path)
                ==> exclude[a].byte_len <= exclude[k].byte_len) && (forall|s: int|
            0 <= s < dirs.len() && #[trigger] dirs[s].components.is_prefix_of(path)
                ==> dirs[s].byte_len <= exclude[k].byte_len)
}

/// Whether the directory with components `path` is excluded from the
/// search (see `excluded_spec`).
pub fn is_excluded(path: &Vec<String>, exclude: &Vec<PathParts>, dirs: &Vec<PathParts>) -> (r: bool)
    ensures
        r == excluded_spec(texts(path@), parts_views(exclude@), parts_views(dirs@)),
{
    let ghost p = texts(path@);
    let ghost ex = parts_views(exclude@);
    let ghost ds = parts_views(dirs@);
    let mut rule: Option<usize> = None;
    let mut k: usize = 0;
    while k < exclude.len()
        invariant
            k <= exclude.len(),
            p == texts(path@),
            ex == parts_views(exclude@),
            ex.len() == exclude.len(),
            match rule {
                None => forall|a: int|
                    0 <= a < k ==> !(#[trigger] ex[a]).components.is_prefix_of(p),
                Some(q) => {
                    &&& q < k
                    &&& ex[q as int].components.is_prefix_of(p)
                    &&& forall|a: int|
                        0 <= a < k && (#[trigger] ex[a]).components.is_prefix_of(p)
                            ==> ex[a].byte_len <= ex[q as int].byte_len
                },
            },
        decreases exclude.len() - k,
    {
        assert(ex[k as int] == exclude@[k as int]@);
        if starts_with_path(path, &exclude[k].components) {
            match rule {
                None => {
                    rule = Some(k);
                },
                Some(q) => {
                    if exclude[k].byte_len >= exclude[q].byte_len {
                        rule = Some(k);
                    }
                },
            }
        }
        k = k + 1;
    }
    match rule {
        None => {
            proof {
                if excluded_spec(p, ex, ds) {
                    let k = choose|k: int|
                        #![trigger ex[k]]
                        0 <= k < ex.len() && ex[k].components.is_prefix_of(p) && (forall|a: int|
                            0 <= a < ex.len() && #[trigger] ex[a].components.is_prefix_of(p)
                                ==> ex[a].byte_len <= ex[k].byte_len) && (forall|s: int|
                            0 <= s < ds.len() && #[trigger] ds[s].components.is_prefix_of(p)
                                ==> ds[s].byte_len <= ex[k].byte_len);
                    assert(!ex[k].components.is_prefix_of(p));
                }
            }
            false
        },
        Some(q) => {
            let limit = exclude[q].byte_len;
            let mut s: usize = 0;
            while s < dirs.len()
                invariant
                    s <= dirs.len(),
                    p == texts(path@),
                    ds == parts_views(dirs@),
                    ds.len() == dirs.len(),
                    ex == parts_views(exclude@),
                    ex.len() == exclude.len(),
                    q < ex.len(),
                    limit == ex[q as int].byte_len,
                    ex[q as int].components.is_prefix_of(p),
                    forall|a: int|
                        0 <= a < ex.len() && (#[trigger] ex[a]).components.is_prefix_of(p)
                            ==> ex[a].byte_len <= ex[q as int].byte_len,
                    forall|a: int|
                        0 <= a < s && (#[trigger] ds[a]).components.is_prefix_of(p)
                            ==> ds[a].byte_len <= limit,
                decreases dirs.len() - s,
            {
                assert(ds[s as int] == dirs@[s as int]@);
                if starts_with_path(path, &dirs[s].components) && dirs[s].byte_len > limit {
                    proof {
                        assert(ds[s as int].components.is_prefix_of(p));
                        if excluded_spec(p, ex, ds) {
                            let k2 = choose|k2: int|
                                #![trigger ex[k2]]
                                0 <= k2 < ex.len() && ex[k2].components.is_prefix_of(p) && (forall|
                                    a: int,
                                |
                                    0 <= a < ex.len() && #[trigger] ex[a].components.is_prefix_of(p)
                                        ==> ex[a].byte_len <= ex[k2].byte_len) && (forall|t: int|
                                    0 <= t < ds.len() && #[trigger] ds[t].components.is_prefix_of(
                                        p,
                                    ) ==> ds[t].byte_len <= ex[k2].byte_len);
                            assert(ex[q as int].byte_len <= ex[k2].byte_len);
                            assert(ex[k2].byte_len <= ex[q as int].byte_len);
                            assert(ds[s as int].byte_len <= ex[k2].byte_len);
                        }
                    }
                    return false;
                }
                s = s + 1;
            }
            proof {
                assert(ex[q as int].components.is_prefix_of(p));
            }
            true
        },
    }
}

/// Some search directory lies inside the directory with components `path`.
pub open spec fn dir_below_spec(path: Seq<Seq<char>>, dirs: Seq<PathPartsView>) -> bool {
    exists|s: int| 0 <= s < dirs.len() && path.is_prefix_of(#[trigger] dirs[s].components)
}

/// Whether some search directory lies inside the directory `path`.
pub fn has_search_dir_below(path: &Vec<String>, dirs: &Vec<PathParts>) -> (r: bool)
    ensures
        r == dir_below_spec(texts(path@), parts_views(dirs@)),
{
    let ghost ds = parts_views(dirs@);
    let mut s: usize = 0;
    while s < dirs.len()
        invariant
            s <= dirs.len(),
            ds == parts_views(dirs@),
            ds.len() == dirs.len(),
            forall|a: int| 0 <= a < s ==> !texts(path@).is_prefix_of(#[trigger] ds[a].components),
        decreases dirs.len() - s,
    {
        assert(ds[s as int] == dirs@[s as int]@);
        if starts_with_path(&dirs[s].components, path) {
            assert(texts(path@).is_prefix_of(ds[s as int].components));
            return true;
        }
        s = s + 1;
    }
    false
}

/// Configured paths with `~` expanded, as text and as parts.
pub struct ExpandedPaths {
    pub texts: Vec<String>,
    pub parts: Vec<PathParts>,
}

/// `t` is the path `p` with `~` expanded for some home directory, and `pp`
/// its parts.
pub open spec fn expanded_entry(p: Seq<char>, t: Seq<char>, pp: PathPartsView) -> bool {
    exists|h: Option<Seq<char>>|
        t == #[trigger] tilde_with_home(p, h) && pp == parts_of(tilde_with_home(p, h))
}

/// `e` holds the paths `ps` expanded, each with some home directory.
pub open spec fn expanded_paths_of(ps: Seq<Seq<char>>, e: ExpandedPaths) -> bool {
    &&& e.texts@.len() == ps.len()
    &&& e.parts@.len() == ps.len()
    &&& forall|i: int|
        0 <= i < ps.len() ==> expanded_entry(ps[i], e.texts@[i]@, #[trigger] e.parts@[i]@)
}

/// `e` holds the paths `ps`, each with `~` expanded to `home`, as text and
/// as parts.
pub open spec fn expanded_with_home(ps: Seq<Seq<char>>, e: ExpandedPaths, home: Option<Seq<char>>) -> bool {
    &&& e.texts@.len() == ps.len()
    &&& e.parts@.len() == ps.len()
    &&& forall|i: int|
        0 <= i < ps.len() ==> #[trigger] e.texts@[i]@ == tilde_with_home(ps[i], home)
            && e.parts@[i]@ == parts_of(tilde_with_home(ps[i], home))
}

proof fn lemma_expanded_with_home(ps: Seq<Seq<char>>, e: ExpandedPaths, home: Option<Seq<char>>)
    requires
        expanded_with_home(ps, e, home),
    ensures
        expanded_paths_of(ps, e),
{
    assert forall|i: int| 0 <= i < ps.len() implies expanded_entry(
        ps[i],
        e.texts@[i]@,
        #[trigger] e.parts@[i]@,
    ) by {
        assert(e.texts@[i]@ == tilde_with_home(ps[i], home));
    }
}

/// Expands `~` in each of `ps` to `home`.
fn expand_paths_with(ps: &Vec<String>, home: &Option<String>) -> (r: ExpandedPaths)
    ensures
        expanded_with_home(texts(ps@), r, home_text(*home)),
{
    let ghost hv = home_text(*home);
    let mut out_texts: Vec<String> = Vec::new();
    let mut out_parts: Vec<PathParts> = Vec::new();
    let mut i: usize = 0;
    while i < ps.len()
        invariant
            i <= ps.len(),
            hv == home_text(*home),
            out_texts@.len() == i,
            out_parts@.len() == i,
            forall|a: int|
                0 <= a < i ==> #[trigger] out_texts@[a]@ == tilde_with_home(texts(ps@)[a], hv)
                    && out_parts@[a]@ == parts_of(tilde_with_home(texts(ps@)[a], hv)),
        decreases ps.len() - i,
    {
        let e = expand_with_home(ps[i].as_str(), home);
        let pp = PathParts::of(e.as_str());
        assert(texts(ps@)[i as int] == ps@[i as int]@);
        let ghost ot = out_texts@;
        let ghost op = out_parts@;
        out_texts.push(e);
        out_parts.push(pp);
        proof {
            assert forall|a: int| 0 <= a < i + 1 implies #[trigger] out_texts@[a]@
                == tilde_with_home(texts(ps@)[a], hv) && out_parts@[a]@ == parts_of(
                tilde_with_home(texts(ps@)[a], hv),
            ) by {
                if a < i {
                    assert(out_texts@[a] == ot[a]);
                    assert(out_parts@[a] == op[a]);
                }
            }
        }
        i = i + 1;
    }
    ExpandedPaths { texts: out_texts, parts: out_parts }
}

/// Expands `~` in each configured path, to the home directory `home_dir`
/// gives, asked once.
pub fn expand_paths(ps: &Vec<String>) -> (r: ExpandedPaths)
    ensures
        expanded_paths_of(texts(ps@), r),
        exists|h: Option<String>|
            #![trigger call_ensures(home_dir, (), h)]
            call_ensures(home_dir, (), h) && expanded_with_home(texts(ps@), r, home_text(h)),
{
    let home = current_home();
    let r = expand_paths_with(ps, &home);
    proof {
        lemma_expanded_with_home(texts(ps@), r, home_text(home));
    }
    r
}

/// Configured folders written with `~` stand for places under the home
/// directory: where the home directory is `home`, the entry for `~/rest`
/// is `home` followed by `/rest` (as text and as parts), and an entry that
/// does not start with `~` is kept as written.
pub proof fn home_relative_folders_are_under_home(
    ps: Seq<Seq<char>>,
    e: ExpandedPaths,
    home: Seq<char>,
    i: int,
)
    requires
        expanded_with_home(ps, e, Some(home)),
        0 <= i < ps.len(),
    ensures
        ps[i].len() > 0 && ps[i][0] == '~' && (ps[i].len() == 1 || ps[i][1] == '/') ==> {
            &&& e.texts@[i]@ == home + ps[i].skip(1)
            &&& e.parts@[i]@ == parts_of(home + ps[i].skip(1))
        },
        (ps[i].len() == 0 || ps[i][0] != '~') ==> e.texts@[i]@ == ps[i] && e.parts@[i]@
            == parts_of(ps[i]),
{
    assert(e.texts@[i]@ == tilde_with_home(ps[i], Some(home)));
}

/// The configured paths of an optional list (none when it is absent).
pub open spec fn opt_list(v: Option<Vec<String>>) -> Seq<Seq<char>> {
    match v {
        Some(l) => texts(l@),
        None => Seq::empty(),
    }
}

/// The folders to search, with `~` expanded.
pub struct ProjectSearch {
    pub search_dirs: ExpandedPaths,
    pub exclude_paths: ExpandedPaths,
    pub force_include: ExpandedPaths,
}

/// What to do with an entry met while walking a search directory.
#[derive(Debug, Clone, Copy, PartialEq, Eq)]
pub enum Visit {
    /// Go on (into it, if it is a directory).
    Enter,
    /// Do not walk below it.
    SkipBelow,
    /// It is a project: record it and do not walk below it.
    Project,
}

fn expand_optional(v: &Option<Vec<String>>, home: &Option<String>) -> (r: ExpandedPaths)
    ensures
        expanded_with_home(opt_list(*v), r, home_text(*home)),
{
    match v {
        Some(l) => expand_paths_with(l, home),
        None => {
            let empty: Vec<String> = Vec::new();
            let r = expand_paths_with(&empty, home);
            assert(texts(empty@) =~= opt_list(*v));
            r
        },
    }
}

impl ProjectSearch {
    /// The configured folders, with `~` expanded to the home directory
    /// `home_dir` gives, asked once for all of them.
    pub fn new(folders: &Folders) -> (r: ProjectSearch)
        ensures
            expanded_paths_of(texts(folders.search_dirs@), r.search_dirs),
            expanded_paths_of(opt_list(folders.exclude_paths), r.exclude_paths),
            expanded_paths_of(opt_list(folders.force_include), r.force_include),
            exists|h: Option<String>|
                #![trigger call_ensures(home_dir, (), h)]
                call_ensures(home_dir, (), h) && expanded_with_home(
                    texts(folders.search_dirs@),
                    r.search_dirs,
                    home_text(h),
                ) && expanded_with_home(opt_list(folders.exclude_paths), r.exclude_paths, home_text(h))
                    && expanded_with_home(opt_list(folders.force_include), r.force_include, home_text(h)),
    {
        let home = current_home();
        let r = ProjectSearch {
            search_dirs: expand_paths_with(&folders.search_dirs, &home),
            exclude_paths: expand_optional(&folders.exclude_paths, &home),
            force_include: expand_optional(&folders.force_include, &home),
        };
        proof {
            let hv = home_text(home);
            lemma_expanded_with_home(texts(folders.search_dirs@), r.search_dirs, hv);
            lemma_expanded_with_home(opt_list(folders.exclude_paths), r.exclude_paths, hv);
            lemma_expanded_with_home(opt_list(folders.force_include), r.force_include, hv);
        }
        r
    }

    /// What to do with the entry at `path` met while walking, given whether
    /// `path` holds `.git` (see `git_marker`): entries that are not
    /// directories are passed over; an excluded directory is not walked
    /// below unless a search directory lies inside it; any other directory
    /// is a project exactly when it holds `.git`.
    pub fn visit(&self, path: &str, is_dir: bool, has_git: bool) -> (r: Visit)
        ensures
            r == visit_spec(
                path_components(path@),
                parts_views(self.exclude_paths.parts@),
                parts_views(self.search_dirs.parts@),
                is_dir,
                has_git,
            ),
    {
        if !is_dir {
            return Visit::Enter;
        }
        let parts = PathParts::of(path);
        if is_excluded(&parts.components, &self.exclude_paths.parts, &self.search_dirs.parts) {
            if has_search_dir_below(&parts.components, &self.search_dirs.parts) {
                return Visit::Enter;
            }
            return Visit::SkipBelow;
        }
        if has_git {
            Visit::Project
        } else {
            Visit::Enter
        }
    }

    /// The `force_include` paths that exist, in their configured order: the
    /// file system is asked about each of them, in order, and those it
    /// says exist are kept.
    pub fn forced_projects(&self) -> (r: Vec<String>)
        ensures
            exists|keep: Seq<bool>|
                #![trigger answers_for_each(exists_at, self.force_include.texts@, keep)]
                answers_for_each(exists_at, self.force_include.texts@, keep) && kept(
                    texts(self.force_include.texts@),
                    keep,
                ) == texts(r@),
    {
        let keep = ask_each(&self.force_include.texts, exists_at);
        let r = keep_marked(&self.force_include.texts, &keep);
        assert(answers_for_each(exists_at, self.force_include.texts@, keep@));
        r
    }

    /// The projects of a search: the `force_include` paths that exist, in
    /// their configured order, then each of the `discovered` directories
    /// whose path is not listed yet, in the order given.
    pub fn collect(&self, discovered: Vec<String>) -> (r: Vec<String>)
        ensures
            exists|keep: Seq<bool>|
                #![trigger answers_for_each(exists_at, self.force_include.texts@, keep)]
                answers_for_each(exists_at, self.force_include.texts@, keep) && texts(r@)
                    == add_all_new(kept(texts(self.force_include.texts@), keep), texts(discovered@)),
    {
        let forced = self.forced_projects();
        let mut list = ProjectList::from_paths(forced);
        list.add_all(discovered);
        list.into_paths()
    }
}

/// What to do with a walked entry (see `ProjectSearch::visit`).
pub open spec fn visit_spec(
    path: Seq<Seq<char>>,
    exclude: Seq<PathPartsView>,
    dirs: Seq<PathPartsView>,
    is_dir: bool,
    has_git: bool,
) -> Visit {
    if !is_dir {
        Visit::Enter
    } else if excluded_spec(path, exclude, dirs) {
        if dir_below_spec(path, dirs) {
            Visit::Enter
        } else {
            Visit::SkipBelow
        }
    } else if has_git {
        Visit::Project
    } else {
        Visit::Enter
    }
}

/// The place whose existence marks the directory `path` as a project.
pub fn git_marker(path: &str) -> (r: String)
    ensures
        r@ == path_join(path@, ".git"@),
{
    join(path, ".git")
}

/// The entries of `v` whose place in `keep` is `true`, in order.
pub fn keep_marked(v: &Vec<String>, keep: &Vec<bool>) -> (r: Vec<String>)
    ensures
        texts(r@) == kept(texts(v@), keep@),
{
    let ghost all = texts(v@);
    let mut r: Vec<String> = Vec::new();
    let mut i: usize = 0;
    assert(all.skip(0) =~= all);
    assert(keep@.skip(0) =~= keep@);
    assert(texts(r@) + kept(all, keep@) =~= kept(all, keep@));
    while i < v.len() && i < keep.len()
        invariant
            i <= v.len(),
            i <= keep.len(),
            all == texts(v@),
            all.len() == v.len(),
            kept(all, keep@) == texts(r@) + kept(all.skip(i as int), keep@.skip(i as int)),
        decreases v.len() - i,
    {
        let ghost before = texts(r@);
        let ghost s = all.skip(i as int);
        let ghost k = keep@.skip(i as int);
        assert(s.drop_first() =~= all.skip(i + 1));
        assert(k.drop_first() =~= keep@.skip(i + 1));
        assert(s[0] == all[i as int] && k[0] == keep@[i as int]);
        if keep[i] {
            let q = v[i].clone();
            r.push(q);
            assert(texts(r@) =~= before.push(all[i as int]));
            assert(texts(r@) + kept(all.skip(i + 1), keep@.skip(i + 1)) =~= before + (seq![
                all[i as int],
            ] + kept(all.skip(i + 1), keep@.skip(i + 1))));
        }
        i = i + 1;
    }
    proof {
        assert(kept(all.skip(i as int), keep@.skip(i as int)) == Seq::<Seq<char>>::empty());
        assert(texts(r@) + Seq::<Seq<char>>::empty() =~= texts(r@));
    }
    r
}

/// The entries of `s` whose place in `keep` is `true`, in order.
pub open spec fn kept(s: Seq<Seq<char>>, keep: Seq<bool>) -> Seq<Seq<char>>
    decreases s.len(),
{
    if s.len() == 0 || keep.len() == 0 {
        Seq::empty()
    } else if keep[0] {
        seq![s[0]] + kept(s.drop_first(), keep.drop_first())
    } else {
        kept(s.drop_first(), keep.drop_first())
    }
}

/// The projects found so far, each kept with its components.
pub struct ProjectList {
    paths: Vec<String>,
    keys: Vec<Vec<String>>,
}

impl View for ProjectList {
    type V = Seq<Seq<char>>;

    closed spec fn view(&self) -> Seq<Seq<char>> {
        texts(self.paths@)
    }
}

/// Some entry of `ps` is the same path as `q`.
pub open spec fn listed(ps: Seq<Seq<char>>, q: Seq<char>) -> bool {
    exists|i: int| 0 <= i < ps.len() && path_components(#[trigger] ps[i]) == path_components(q)
}

/// `ps` with `q` added at the end unless a path with the same components
/// (the same path) is already there.
pub open spec fn add_new(ps: Seq<Seq<char>>, q: Seq<char>) -> Seq<Seq<char>> {
    if listed(ps, q) {
        ps
    } else {
        ps.push(q)
    }
}

/// `ps` with each of `qs` added in turn as `add_new` does.
pub open spec fn add_all_new(ps: Seq<Seq<char>>, qs: Seq<Seq<char>>) -> Seq<Seq<char>>
    decreases qs.len(),
{
    if qs.len() == 0 {
        ps
    } else {
        add_new(add_all_new(ps, qs.drop_last()), qs.last())
    }
}

/// Adds `path`, whose components are `key`, to `paths` (with `key` to
/// `keys`) unless `keys` already holds the same components.
pub fn add_if_new(paths: &mut Vec<String>, keys: &mut Vec<Vec<String>>, path: String, key: Vec<String>)
    requires
        old(keys)@.len() == old(paths)@.len(),
    ensures
        final(keys)@.len() == final(paths)@.len(),
        (exists|i: int|
            0 <= i < old(keys)@.len() && texts(#[trigger] old(keys)@[i]@) == texts(key@))
            ==> *final(paths) == *old(paths) && *final(keys) == *old(keys),
        !(exists|i: int|
            0 <= i < old(keys)@.len() && texts(#[trigger] old(keys)@[i]@) == texts(key@))
            ==> final(paths)@ == old(paths)@.push(path) && final(keys)@ == old(keys)@.push(key),
{
    let mut i: usize = 0;
    while i < keys.len()
        invariant
            i <= keys.len(),
            *paths == *old(paths),
            *keys == *old(keys),
            keys@.len() == paths@.len(),
            forall|a: int| 0 <= a < i ==> texts(#[trigger] keys@[a]@) != texts(key@),
        decreases keys.len() - i,
    {
        if same_path(&keys[i], &key) {
            return;
        }
        i = i + 1;
    }
    paths.push(path);
    keys.push(key);
}

impl ProjectList {
    /// Each path is kept with its components.
    #[verifier::type_invariant]
    spec fn keyed(self) -> bool {
        &&& self.keys@.len() == self.paths@.len()
        &&& forall|i: int|
            0 <= i < self.paths@.len() ==> texts(#[trigger] self.keys@[i]@) == path_components(
                self.paths@[i]@,
            )
    }

    /// A list holding `paths` in order.
    pub fn from_paths(paths: Vec<String>) -> (r: ProjectList)
        ensures
            r@ == texts(paths@),
    {
        let mut keys: Vec<Vec<String>> = Vec::new();
        let mut i: usize = 0;
        while i < paths.len()
            invariant
                i <= paths.len(),
                keys@.len() == i,
                forall|a: int|
                    0 <= a < i ==> texts(#[trigger] keys@[a]@) == path_components(paths@[a]@),
            decreases paths.len() - i,
        {
            let pp = PathParts::of(paths[i].as_str());
            keys.push(pp.components);
            i = i + 1;
        }
        ProjectList { paths, keys }
    }

    /// The paths listed, in order.
    pub fn paths(&self) -> (r: &Vec<String>)
        ensures
            texts(r@) == self@,
    {
        &self.paths
    }

    /// The paths listed, in order.
    pub fn into_paths(self) -> (r: Vec<String>)
        ensures
            texts(r@) == self@,
    {
        self.paths
    }

    /// Adds `path` unless the same path is already listed.
    pub fn add(&mut self, path: String)
        ensures
            final(self)@ == add_new(old(self)@, path@),
    {
        proof {
            use_type_invariant(&*self);
        }
        let ghost ps = self@;
        let ghost pv = path@;
        let ghost old_keys = self.keys@;
        let ghost old_paths = self.paths@;
        let key = PathParts::of(path.as_str()).components;
        proof {
            if listed(ps, pv) {
                let i = choose|i: int| 0 <= i < ps.len() && path_components(#[trigger] ps[i]) == path_components(pv);
                assert(ps[i] == old_paths[i]@);
                assert(texts(old_keys[i]@) == texts(key@));
            }
            if exists|i: int| 0 <= i < old_keys.len() && texts(#[trigger] old_keys[i]@) == texts(key@) {
                let i = choose|i: int| 0 <= i < old_keys.len() && texts(#[trigger] old_keys[i]@) == texts(key@);
                assert(ps[i] == old_paths[i]@);
                assert(path_components(ps[i]) == path_components(pv));
            }
        }
        let mut taken = ProjectList { paths: Vec::new(), keys: Vec::new() };
        std::mem::swap(&mut taken, self);
        let ProjectList { mut paths, mut keys } = taken;
        assert(paths@ == old_paths && keys@ == old_keys);
        add_if_new(&mut paths, &mut keys, path, key);
        proof {
            if add_new(ps, pv) != ps {
                assert(add_new(ps, pv) == ps.push(pv));
                assert(texts(paths@) =~= ps.push(pv));
                assert forall|a: int| 0 <= a < paths@.len() implies texts(
                    #[trigger] keys@[a]@,
                ) == path_components(paths@[a]@) by {
                    if a < ps.len() {
                        assert(keys@[a] == old_keys[a]);
                        assert(paths@[a] == old_paths[a]);
                    }
                }
            } else {
                assert(paths@ == old_paths);
                assert(keys@ == old_keys);
            }
        }
        *self = ProjectList { paths, keys };
    }

    /// Adds each of `paths` in turn, leaving out those already listed.
    pub fn add_all(&mut self, paths: Vec<String>)
        ensures
            final(self)@ == add_all_new(old(self)@, texts(paths@)),
    {
        let ghost ps = self@;
        let mut i: usize = 0;
        while i < paths.len()
            invariant
                i <= paths.len(),
                self@ == add_all_new(ps, texts(paths@).take(i as int)),
            decreases paths.len() - i,
        {
            let ghost before = texts(paths@).take(i as int);
            self.add(paths[i].clone());
            proof {
                let after = texts(paths@).take(i + 1);
                assert(after.drop_last() =~= before);
                assert(after.last() == paths@[i as int]@);
            }
            i = i + 1;
        }
        assert(texts(paths@).take(paths.len() as int) =~= texts(paths@));
    }
}

/// A search directory that contains a directory and is longer than every
/// exclude path containing it keeps the directory in the search: a search
/// directory inside an excluded path is still searched.
pub proof fn search_dir_inside_exclusion_is_searched(
    path: Seq<Seq<char>>,
    exclude: Seq<PathPartsView>,
    dirs: Seq<PathPartsView>,
    s: int,
)
    requires
        0 <= s < dirs.len(),
        dirs[s].components.is_prefix_of(path),
        forall|k: int|
            0 <= k < exclude.len() && (#[trigger] exclude[k]).components.is_prefix_of(path)
                ==> exclude[k].byte_len < dirs[s].byte_len,
    ensures
        !excluded_spec(path, exclude, dirs),
{
    if excluded_spec(path, exclude, dirs) {
        let k = choose|k: int|
            #![trigger exclude[k]]
            0 <= k < exclude.len() && exclude[k].components.is_prefix_of(path) && (forall|a: int|
                0 <= a < exclude.len() && #[trigger] exclude[a].components.is_prefix_of(path)
                    ==> exclude[a].byte_len <= exclude[k].byte_len) && (forall|t: int|
                0 <= t < dirs.len() && #[trigger] dirs[t].components.is_prefix_of(path)
                    ==> dirs[t].byte_len <= exclude[k].byte_len);
        assert(dirs[s].byte_len <= exclude[k].byte_len);
    }
}

proof fn lemma_longest_exclusion(path: Seq<Seq<char>>, exclude: Seq<PathPartsView>, k: int)
    requires
        0 <= k < exclude.len(),
        exclude[k].components.is_prefix_of(path),
    ensures
        exists|m: int|
            #![trigger exclude[m]]
            0 <= m < exclude.len() && exclude[m].components.is_prefix_of(path) && exclude[k].byte_len
                <= exclude[m].byte_len && (forall|a: int|
                0 <= a < exclude.len() && #[trigger] exclude[a].components.is_prefix_of(path)
                    ==> exclude[a].byte_len <= exclude[m].byte_len),
    decreases usize::MAX - exclude[k].byte_len,
{
    if forall|a: int|
        0 <= a < exclude.len() && #[trigger] exclude[a].components.is_prefix_of(path)
            ==> exclude[a].byte_len <= exclude[k].byte_len {
        assert(exclude[k].byte_len <= exclude[k].byte_len);
    } else {
        let a = choose|a: int|
            0 <= a < exclude.len() && #[trigger] exclude[a].components.is_prefix_of(path)
                && !(exclude[a].byte_len <= exclude[k].byte_len);
        lemma_longest_exclusion(path, exclude, a);
    }
}

/// A directory inside an exclude path is skipped, with everything below
/// it, unless a search directory that contains it is longer than that
/// exclude path.
pub proof fn excluded_paths_are_skipped(
    path: Seq<Seq<char>>,
    exclude: Seq<PathPartsView>,
    dirs: Seq<PathPartsView>,
    k: int,
)
    requires
        0 <= k < exclude.len(),
        exclude[k].components.is_prefix_of(path),
        forall|s: int|
            0 <= s < dirs.len() && (#[trigger] dirs[s]).components.is_prefix_of(path)
                ==> dirs[s].byte_len <= exclude[k].byte_len,
    ensures
        excluded_spec(path, exclude, dirs),
{
    lemma_longest_exclusion(path, exclude, k);
    let m = choose|m: int|
        #![trigger exclude[m]]
        0 <= m < exclude.len() && exclude[m].components.is_prefix_of(path) && exclude[k].byte_len
            <= exclude[m].byte_len && (forall|a: int|
            0 <= a < exclude.len() && #[trigger] exclude[a].components.is_prefix_of(path)
                ==> exclude[a].byte_len <= exclude[m].byte_len);
    assert forall|s: int|
        0 <= s < dirs.len() && #[trigger] dirs[s].components.is_prefix_of(path) implies dirs[s].byte_len
        <= exclude[m].byte_len by {
        assert(dirs[s].byte_len <= exclude[k].byte_len);
    }
}

/// No two of `ps` are the same path.
pub open spec fn distinct_paths(ps: Seq<Seq<char>>) -> bool {
    forall|i: int, j: int|
        0 <= i < j < ps.len() ==> path_components(#[trigger] ps[i]) != path_components(
            #[trigger] ps[j],
        )
}

/// Adding found projects to a list keeps the list's own entries first and
/// in order, gives each found project an entry for its path, and, where
/// the list held no path twice, never lists one path twice.
pub proof fn adding_projects_keeps_order_and_paths_distinct(ps: Seq<Seq<char>>, qs: Seq<Seq<char>>)
    ensures
        ps.is_prefix_of(add_all_new(ps, qs)),
        distinct_paths(ps) ==> distinct_paths(add_all_new(ps, qs)),
        forall|j: int| 0 <= j < qs.len() ==> listed(add_all_new(ps, qs), #[trigger] qs[j]),
    decreases qs.len(),
{
    if qs.len() > 0 {
        let prev = add_all_new(ps, qs.drop_last());
        adding_projects_keeps_order_and_paths_distinct(ps, qs.drop_last());
        let q = qs.last();
        let r = add_new(prev, q);
        assert(r == add_all_new(ps, qs));
        if listed(prev, q) {
            assert(r == prev);
            assert forall|j: int| 0 <= j < qs.len() implies listed(r, #[trigger] qs[j]) by {
                if j < qs.len() - 1 {
                    assert(qs.drop_last()[j] == qs[j]);
                }
            }
        } else {
            assert(r == prev.push(q));
            if distinct_paths(ps) {
                assert forall|i: int, j: int|
                    0 <= i < j < r.len() implies path_components(#[trigger] r[i])
                    != path_components(#[trigger] r[j]) by {
                    if j == r.len() - 1 {
                        assert(r[i] == prev[i]);
                    } else {
                        assert(r[i] == prev[i] && r[j] == prev[j]);
                    }
                }
            }
            assert forall|j: int| 0 <= j < qs.len() implies listed(r, #[trigger] qs[j]) by {
                if j < qs.len() - 1 {
                    assert(qs.drop_last()[j] == qs[j]);
                    assert(listed(prev, qs.drop_last()[j]));
                    let i = choose|i: int|
                        0 <= i < prev.len() && path_components(#[trigger] prev[i])
                            == path_components(qs.drop_last()[j]);
                    assert(r[i] == prev[i]);
                } else {
                    assert(r[r.len() - 1] == q);
                }
            }
        }
    } else {
        assert(add_all_new(ps, qs) == ps);
        assert(ps.is_prefix_of(ps));
    }
}

proof fn lemma_kept_members(s: Seq<Seq<char>>, keep: Seq<bool>)
    ensures
        forall|m: int|
            0 <= m < kept(s, keep).len() ==> exists|j: int|
                0 <= j < s.len() && #[trigger] kept(s, keep)[m] == s[j],
    decreases s.len(),
{
    if s.len() > 0 && keep.len() > 0 {
        let s2 = s.drop_first();
        let k2 = keep.drop_first();
        lemma_kept_members(s2, k2);
        let rest = kept(s2, k2);
        assert forall|m: int| 0 <= m < kept(s, keep).len() implies exists|j: int|
            0 <= j < s.len() && #[trigger] kept(s, keep)[m] == s[j] by {
            if keep[0] {
                if m == 0 {
                    assert(kept(s, keep)[0] == s[0]);
                } else {
                    assert(kept(s, keep)[m] == rest[m - 1]);
                    let j = choose|j: int| 0 <= j < s2.len() && #[trigger] rest[m - 1] == s2[j];
                    assert(s2[j] == s[j + 1]);
                }
            } else {
                assert(kept(s, keep)[m] == rest[m]);
                let j = choose|j: int| 0 <= j < s2.len() && #[trigger] rest[m] == s2[j];
                assert(s2[j] == s[j + 1]);
            }
        }
    }
}

proof fn lemma_kept_distinct(s: Seq<Seq<char>>, keep: Seq<bool>)
    requires
        distinct_paths(s),
    ensures
        distinct_paths(kept(s, keep)),
    decreases s.len(),
{
    if s.len() > 0 && keep.len() > 0 {
        let s2 = s.drop_first();
        let k2 = keep.drop_first();
        assert forall|i: int, j: int| 0 <= i < j < s2.len() implies path_components(
            #[trigger] s2[i],
        ) != path_components(#[trigger] s2[j]) by {
            assert(s2[i] == s[i + 1] && s2[j] == s[j + 1]);
        }
        lemma_kept_distinct(s2, k2);
        lemma_kept_members(s2, k2);
        let rest = kept(s2, k2);
        if keep[0] {
            let r = kept(s, keep);
            assert(r == seq![s[0]] + rest);
            assert forall|i: int, j: int| 0 <= i < j < r.len() implies path_components(
                #[trigger] r[i],
            ) != path_components(#[trigger] r[j]) by {
                assert(r[j] == rest[j - 1]);
                if i == 0 {
                    let jj = choose|jj: int| 0 <= jj < s2.len() && #[trigger] rest[j - 1] == s2[jj];
                    assert(s2[jj] == s[jj + 1]);
                    assert(r[0] == s[0]);
                } else {
                    assert(r[i] == rest[i - 1]);
                }
            }
        }
    }
}

/// What a whole search gives: the `force_include` paths found to exist come
/// first, in their configured order; every discovered project is listed;
/// and where the `force_include` paths name no path twice, no path is
/// listed twice.
pub proof fn forced_first_and_no_path_twice(
    force: Seq<Seq<char>>,
    keep: Seq<bool>,
    found: Seq<Seq<char>>,
)
    ensures
        kept(force, keep).is_prefix_of(add_all_new(kept(force, keep), found)),
        forall|j: int| 0 <= j < found.len() ==> listed(add_all_new(kept(force, keep), found), #[trigger] found[j]),
        distinct_paths(force) ==> distinct_paths(add_all_new(kept(force, keep), found)),
{
    adding_projects_keeps_order_and_paths_distinct(kept(force, keep), found);
    if distinct_paths(force) {
        lemma_kept_distinct(force, keep);
    }
}

/// `str::to_lowercase`: what Unicode makes of `s` in lower case.
pub uninterp spec fn lowercase(s: Seq<char>) -> Seq<char>;

/// `str::to_lowercase`. The contract claims only that the result is what
/// the name `lowercase` stands for.
#[verifier::external_body]
fn to_lowercase(s: &str) -> (r: String)
    ensures
        r@ == lowercase(s@),
{
    s.to_lowercase()
}

/// An answer, already trimmed and in lower case, that says yes: nothing,
/// `y` or `yes`.
pub open spec fn says_yes(answer: Seq<char>) -> bool {
    answer.len() == 0 || answer == "y"@ || answer == "yes"@
}

/// Whether a trimmed, lower-case answer to the prompt says yes.
pub fn accepts(answer: &str) -> (r: bool)
    ensures
        r == says_yes(answer@),
{
    answer.is_empty() || str_eq(answer, "y") || str_eq(answer, "yes")
}

/// Whether a line typed at the `Run "..."? [Y/n]` prompt says yes: once
/// trimmed and in lower case, it is empty, `y` or `yes`.
pub fn confirm_answer(line: &str) -> (r: bool)
    ensures
        r == says_yes(lowercase(trimmed(line@))),
{
    let t = trim(line);
    let lower = to_lowercase(t.as_str());
    accepts(lower.as_str())
}

} // verus!
