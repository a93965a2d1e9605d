//! Paths held as text, and the few questions about them that the
//! standard library and `shellexpand` answer.
use vstd::prelude::*;
use std::path::Path;
use crate::text::{chars_of, owned, push_str, str_eq, string_of_range};

verus! {

/// The components that `Path::components` yields for the path `p`, each
/// written as text (the root as `/`, `.` and `..` as themselves).
pub uninterp spec fn path_components(p: Seq<char>) -> Seq<Seq<char>>;

/// The path `Path::join` builds from `base` and `rest`.
pub uninterp spec fn path_join(base: Seq<char>, rest: Seq<char>) -> Seq<char>;

/// The last component that `Path::file_name` finds in `p`, if any.
pub uninterp spec fn path_file_name(p: Seq<char>) -> Option<Seq<char>>;

/// The texts of a vector of strings.
pub open spec fn texts(v: Seq<String>) -> Seq<Seq<char>> {
    v.map_values(|s: String| s@)
}

/// `Path::components` on `p`, each component turned into text. The
/// contract claims only that the result is the components that
/// `Path::components` yields, which the name `path_components` stands for.
#[verifier::external_body]
fn components_of(p: &str) -> (r: Vec<String>)
    ensures
        texts(r@) == path_components(p@),
{
    Path::new(p).components().map(|c| c.as_os_str().to_string_lossy().into_owned()).collect()
}

/// `Path::join` of `base` and `rest`, as text. The contract claims that the
/// result is what `Path::join` builds, named `path_join`, and what its
/// documentation says of it on Unix: an absolute `rest` replaces `base`;
/// a relative one extends `base`, after a `/` where `base` does not end
/// with one.
#[verifier::external_body]
pub(crate) fn join(base: &str, rest: &str) -> (r: String)
    ensures
        r@ == path_join(base@, rest@),
        join_shape(base@, rest@, r@),
{
    Path::new(base).join(rest).to_string_lossy().into_owned()
}

/// `Path::file_name` of `p`, as text. The contract claims that the result
/// is what `Path::file_name` finds, named `path_file_name`, and what its
/// documentation says of it: it is the path's final component, and there
/// is none where the path ends in `..`.
#[verifier::external_body]
pub(crate) fn file_name(p: &str) -> (r: Option<String>)
    ensures
        match r {
            Some(n) => path_file_name(p@) == Some(n@),
            None => path_file_name(p@) is None,
        },
        r matches Some(n) ==> path_components(p@).len() > 0 && n@ == path_components(p@).last(),
        (path_components(p@).len() > 0 && path_components(p@).last() == ".."@) ==> r is None,
{
    match Path::new(p).file_name() {
        Some(n) => Some(n.to_string_lossy().into_owned()),
        None => None,
    }
}

/// What the documentation of `Path::join` says of its result on Unix.
pub open spec fn join_shape(base: Seq<char>, rest: Seq<char>, r: Seq<char>) -> bool {
    &&& (rest.len() > 0 && rest[0] == '/') ==> r == rest
    &&& (rest.len() > 0 && rest[0] != '/' && base.len() > 0 && base.last() != '/') ==> r == base
        + seq!['/'] + rest
    &&& (rest.len() > 0 && rest[0] != '/' && base.len() > 0 && base.last() == '/') ==> r == base
        + rest
}

/// Whether the path `p` is absolute: on Unix, whether it starts with the
/// root `/` (as `Path::is_absolute` is documented to decide there).
pub fn is_absolute(p: &str) -> (r: bool)
    ensures
        r == (p@.len() > 0 && p@[0] == '/'),
{
    let v = chars_of(p);
    v.len() > 0 && v[0] == '/'
}

/// `Path::exists`: asks the file system, so nothing is promised of the answer.
#[verifier::external_body]
pub(crate) fn path_exists(p: &String) -> bool {
    Path::new(p.as_str()).exists()
}

/// Whether something exists at `p`, as the file system answers now. Nothing
/// is promised of the answer; contracts that depend on it speak of the
/// answers this function gave (`call_ensures(exists_at, (p,), answer)`).
pub fn exists_at(p: &String) -> bool {
    path_exists(p)
}

/// `e` holds the answers that `ask` gave about `places`, asked in order up
/// to and including the first yes (about all of them where none was yes).
pub open spec fn answers_in_order<F: Fn(&String) -> bool>(
    ask: F,
    places: Seq<String>,
    e: Seq<bool>,
) -> bool {
    &&& stops_at_first_yes(places.len(), e)
    &&& forall|i: int| 0 <= i < e.len() ==> call_ensures(ask, (&places[i],), #[trigger] e[i])
}

/// `e` answers the first of `n` questions in turn and stops after the first
/// yes: every answer but the last is no, and it stops early only on a yes.
pub open spec fn stops_at_first_yes(n: nat, e: Seq<bool>) -> bool {
    &&& e.len() <= n
    &&& forall|i: int| 0 <= i < e.len() - 1 ==> !#[trigger] e[i]
    &&& (e.len() < n ==> e.len() > 0 && e.last())
}

/// `e` holds the answers that `ask` gave about each of `places`, in order.
pub open spec fn answers_for_each<F: Fn(&String) -> bool>(
    ask: F,
    places: Seq<String>,
    e: Seq<bool>,
) -> bool {
    &&& e.len() == places.len()
    &&& forall|i: int| 0 <= i < e.len() ==> call_ensures(ask, (&places[i],), #[trigger] e[i])
}

/// Asks `ask` about each of `places`, in order, and gives back the answers.
pub fn ask_each<F: Fn(&String) -> bool>(places: &Vec<String>, ask: F) -> (r: Vec<bool>)
    requires
        forall|i: int| 0 <= i < places.len() ==> call_requires(ask, (&places@[i],)),
    ensures
        answers_for_each(ask, places@, r@),
{
    let mut r: Vec<bool> = Vec::new();
    let mut i: usize = 0;
    while i < places.len()
        invariant
            i <= places.len(),
            r.len() == i,
            forall|k: int| 0 <= k < places.len() ==> call_requires(ask, (&places@[k],)),
            forall|k: int| 0 <= k < i ==> call_ensures(ask, (&places@[k],), #[trigger] r@[k]),
        decreases places.len() - i,
    {
        let there = ask(&places[i]);
        r.push(there);
        i = i + 1;
    }
    r
}

/// Asks `ask` about each of `places` in turn, up to and including the
/// first yes, and gives back the answers.
pub fn ask_in_order<F: Fn(&String) -> bool>(places: &Vec<String>, ask: F) -> (r: Vec<bool>)
    requires
        forall|i: int| 0 <= i < places.len() ==> call_requires(ask, (&places@[i],)),
    ensures
        answers_in_order(ask, places@, r@),
{
    let mut r: Vec<bool> = Vec::new();
    let mut i: usize = 0;
    let mut done = false;
    while i < places.len() && !done
        invariant
            i <= places.len(),
            r.len() == i,
            forall|k: int| 0 <= k < places.len() ==> call_requires(ask, (&places@[k],)),
            forall|k: int| 0 <= k < i ==> call_ensures(ask, (&places@[k],), #[trigger] r@[k]),
            forall|k: int| 0 <= k < i - 1 ==> !#[trigger] r@[k],
            done ==> i > 0 && r@[i - 1],
            !done && i > 0 ==> !r@[i - 1],
        decreases places.len() - i,
    {
        let there = ask(&places[i]);
        r.push(there);
        done = there;
        i = i + 1;
    }
    r
}

/// What `shellexpand::tilde_with_context` makes of `s` when the home
/// directory is `home`: a leading `~` that stands alone or before a `/`
/// becomes the home directory; everything else stays as it is.
pub open spec fn tilde_with_home(s: Seq<char>, home: Option<Seq<char>>) -> Seq<char> {
    if s.len() > 0 && s[0] == '~' && (s.len() == 1 || s[1] == '/') && home is Some {
        home.unwrap() + s.skip(1)
    } else {
        s
    }
}

/// `shellexpand::tilde`. The home directory comes from the environment, so
/// the contract says only that the result is `s` expanded with some home
/// directory, or with none (the `\` separator that the crate also accepts
/// after `~` on Windows is left out: the statement is the Unix one).
#[verifier::external_body]
fn tilde(s: &str) -> (r: String)
    ensures
        exists|h: Option<Seq<char>>| r@ == tilde_with_home(s@, h),
{
    shellexpand::tilde(s).into_owned()
}

/// The text of an optional home directory.
pub open spec fn home_text(h: Option<String>) -> Option<Seq<char>> {
    match h {
        Some(t) => Some(t@),
        None => None,
    }
}

/// The home directory that a leading `~` stands for, as `shellexpand`
/// finds it when asked (`None` where there is none). It comes from the
/// environment, so nothing is promised of it but that it is not `~`
/// itself; contracts that depend on it speak of the answer this function
/// gave (`call_ensures(home_dir, (), answer)`).
pub fn home_dir() -> (r: Option<String>)
    ensures
        r matches Some(h) ==> h@ != "~"@,
{
    let t = tilde("~");
    if str_eq(t.as_str(), "~") {
        None
    } else {
        Some(t)
    }
}

/// Asks `f` once for a home directory.
fn ask_home<F: Fn() -> Option<String>>(f: F) -> (r: Option<String>)
    requires
        call_requires(f, ()),
    ensures
        call_ensures(f, (), r),
{
    f()
}

/// `path` with a leading `~` (alone or before a `/`) replaced by `home`,
/// as `shellexpand::tilde_with_context` does.
pub fn expand_with_home(path: &str, home: &Option<String>) -> (r: String)
    ensures
        r@ == tilde_with_home(path@, home_text(*home)),
{
    let v = chars_of(path);
    if v.len() > 0 && v[0] == '~' && (v.len() == 1 || v[1] == '/') {
        match home {
            Some(h) => {
                let mut r = owned(h.as_str());
                let tail = string_of_range(&v, 1, v.len());
                push_str(&mut r, tail.as_str());
                assert(v@.subrange(1, v@.len() as int) =~= path@.skip(1));
                r
            },
            None => owned(path),
        }
    } else {
        owned(path)
    }
}

/// Expands a leading `~` in a configured path to the home directory: the
/// one `home_dir` gives, asked once.
pub fn expand_path(path: &str) -> (r: String)
    ensures
        exists|h: Option<Seq<char>>| r@ == tilde_with_home(path@, h),
        exists|h: Option<String>|
            #![trigger call_ensures(home_dir, (), h)]
            call_ensures(home_dir, (), h) && r@ == tilde_with_home(path@, home_text(h)),
{
    let home = ask_home(home_dir);
    expand_with_home(path, &home)
}

/// Asks for the home directory once, for expanding several paths with it.
pub(crate) fn current_home() -> (r: Option<String>)
    ensures
        call_ensures(home_dir, (), r),
{
    ask_home(home_dir)
}

/// A path's components together with its length in bytes.
pub struct PathParts {
    pub components: Vec<String>,
    pub byte_len: usize,
}

/// What a `PathParts` stands for.
pub struct PathPartsView {
    pub components: Seq<Seq<char>>,
    pub byte_len: usize,
}

impl View for PathParts {
    type V = PathPartsView;

    open spec fn view(&self) -> PathPartsView {
        PathPartsView { components: texts(self.components@), byte_len: self.byte_len }
    }
}

/// The parts of the path written `p`.
pub open spec fn parts_of(p: Seq<char>) -> PathPartsView {
    PathPartsView { components: path_components(p), byte_len: vstd::utf8::encode_utf8(p).len() as usize }
}

impl PathParts {
    /// The components and byte length of `p`.
    pub fn of(p: &str) -> (r: PathParts)
        ensures
            r@ == parts_of(p@),
    {
        let components = components_of(p);
        let byte_len = p.len();
        PathParts { components, byte_len }
    }
}

/// Two paths are the same when their components are (as `Path`'s `==`
/// compares them).
pub fn same_path(a: &Vec<String>, b: &Vec<String>) -> (r: bool)
    ensures
        r == (texts(a@) == texts(b@)),
{
    if a.len() != b.len() {
        proof {
            assert(texts(a@).len() != texts(b@).len());
        }
        return false;
    }
    let mut i: usize = 0;
    while i < a.len()
        invariant
            a.len() == b.len(),
            i <= a.len(),
            forall|k: int| 0 <= k < i ==> a@[k]@ == b@[k]@,
        decreases a.len() - i,
    {
        if a[i] != b[i] {
            proof {
                assert(texts(a@)[i as int] != texts(b@)[i as int]);
            }
            return false;
        }
        i = i + 1;
    }
    assert(texts(a@) =~= texts(b@));
    true
}

/// `path` starts with the whole components of `prefix` (`Path::starts_with`).
pub fn starts_with_path(path: &Vec<String>, prefix: &Vec<String>) -> (r: bool)
    ensures
        r == texts(prefix@).is_prefix_of(texts(path@)),
{
    if prefix.len() > path.len() {
        return false;
    }
    let mut i: usize = 0;
    while i < prefix.len()
        invariant
            prefix.len() <= path.len(),
            i <= prefix.len(),
            forall|k: int| 0 <= k < i ==> prefix@[k]@ == path@[k]@,
        decreases prefix.len() - i,
    {
        if prefix[i] != path[i] {
            proof {
                assert(texts(prefix@)[i as int] != texts(path@)[i as int]);
            }
            return false;
        }
        i = i + 1;
    }
    true
}

} // verus!
