//! Building a configured session in tmux, one step at a time: which
//! windows to create, how to split their panes, and which panes get
//! commands. tmux itself is driven by the caller, who performs each action
//! and hands back what tmux answered.
use vstd::prelude::*;
use crate::config::{Config, Pane, Session, SplitDirection, Window};
use crate::paths::texts;
use crate::text::owned;
use crate::tmux::{pane_split_arg, window_split_arg, TmuxCommand};

verus! {

/// A group of sibling panes being laid out: the top-level panes of the
/// window (`node` empty) or the children of the pane that `node` leads to.
pub struct Frame {
    /// The child indices that lead from the window's panes to the pane
    /// whose children these are.
    pub node: Vec<usize>,
    /// The ids of the panes made so far; the first is the group's own pane.
    pub ids: Vec<String>,
    /// Whether the group's pane is still being split.
    pub splitting: bool,
    /// The next child pane to set up once splitting is over.
    pub next_child: usize,
}

/// What a `Frame` stands for.
pub struct FrameView {
    pub node: Seq<usize>,
    pub ids: Seq<Seq<char>>,
    pub splitting: bool,
    pub next_child: usize,
}

impl View for Frame {
    type V = FrameView;

    open spec fn view(&self) -> FrameView {
        FrameView {
            node: self.node@,
            ids: texts(self.ids@),
            splitting: self.splitting,
            next_child: self.next_child,
        }
    }
}

/// Commands to type into a pane once the session is built.
pub struct ExecTask {
    pub pane_id: String,
    pub window_name: String,
    pub commands: Vec<String>,
    /// The number of the pane's window in the session, counting from 1.
    pub window_number: usize,
    /// The child indices that lead from the window's panes to the pane.
    pub node: Vec<usize>,
}

/// What an `ExecTask` stands for.
pub struct ExecTaskView {
    pub pane_id: Seq<char>,
    pub window_name: Seq<char>,
    pub commands: Seq<Seq<char>>,
    pub window_number: usize,
    pub node: Seq<usize>,
}

impl View for ExecTask {
    type V = ExecTaskView;

    open spec fn view(&self) -> ExecTaskView {
        ExecTaskView {
            pane_id: self.pane_id@,
            window_name: self.window_name@,
            commands: texts(self.commands@),
            window_number: self.window_number,
            node: self.node@,
        }
    }
}

/// What the last action waits for tmux to answer.
#[derive(Debug, Clone, Copy, PartialEq, Eq)]
pub enum Waiting {
    Nothing,
    /// The id of the first pane of a new window.
    WindowPane,
    /// The id of the pane a split made.
    SplitPane,
}

/// The state of building one session.
pub struct SessionBuilder {
    /// The index, in the session's window list, of the next window to create.
    pub next_window: usize,
    /// The configured window being laid out, as an index into `Config::windows`.
    pub current: Option<usize>,
    /// The name of the window being laid out.
    pub current_name: String,
    /// The groups of panes being laid out, innermost last.
    pub stack: Vec<Frame>,
    /// The panes that have commands to run, in order.
    pub tasks: Vec<ExecTask>,
    pub waiting: Waiting,
    /// The current window's hooks are still to be started.
    pub hooks_due: bool,
}

/// What a `SessionBuilder` stands for.
pub struct BuilderView {
    pub next_window: nat,
    pub current: Option<usize>,
    pub current_name: Seq<char>,
    pub stack: Seq<FrameView>,
    pub tasks: Seq<ExecTaskView>,
    pub waiting: Waiting,
    pub hooks_due: bool,
}

impl View for SessionBuilder {
    type V = BuilderView;

    open spec fn view(&self) -> BuilderView {
        BuilderView {
            next_window: self.next_window as nat,
            current: self.current,
            current_name: self.current_name@,
            stack: self.stack@.map_values(|f: Frame| f@),
            tasks: self.tasks@.map_values(|t: ExecTask| t@),
            waiting: self.waiting,
            hooks_due: self.hooks_due,
        }
    }
}

/// What the caller is asked to do next.
#[derive(Debug, PartialEq, Eq)]
pub enum BuildAction {
    /// Create a window (the session itself with its first window when
    /// `first`) and hand back the id of its pane, or `None` if tmux failed.
    CreateWindow { first: bool, name: String },
    /// Split pane `target` with tmux flag `flag`, the new pane taking
    /// `percent` of the space, and hand back its id, or `None` if tmux failed.
    Split { flag: String, percent: u32, target: String },
    /// Start the hooks of configured window `window`, named `name`.
    SpawnHooks { window: usize, name: String },
    /// Nothing to do: call `step` again.
    Continue,
    /// The session is built; the panes with commands are in `tasks`.
    Finished,
    /// A window could not be created: the session is to be given up.
    Failed,
}

/// What a `BuildAction` stands for.
pub enum ActionView {
    CreateWindow { first: bool, name: Seq<char> },
    Split { flag: Seq<char>, percent: u32, target: Seq<char> },
    SpawnHooks { window: usize, name: Seq<char> },
    Continue,
    Finished,
    Failed,
}

impl View for BuildAction {
    type V = ActionView;

    open spec fn view(&self) -> ActionView {
        match self {
            BuildAction::CreateWindow { first, name } => ActionView::CreateWindow {
                first: *first,
                name: name@,
            },
            BuildAction::Split { flag, percent, target } => ActionView::Split {
                flag: flag@,
                percent: *percent,
                target: target@,
            },
            BuildAction::SpawnHooks { window, name } => ActionView::SpawnHooks {
                window: *window,
                name: name@,
            },
            BuildAction::Continue => ActionView::Continue,
            BuildAction::Finished => ActionView::Finished,
            BuildAction::Failed => ActionView::Failed,
        }
    }
}

/// The pane that the child indices `node` lead to from `panes`.
pub open spec fn pane_at(panes: Seq<Pane>, node: Seq<usize>) -> Option<Pane>
    decreases node.len(),
{
    if node.len() == 0 || node[0] >= panes.len() {
        None
    } else if node.len() == 1 {
        Some(panes[node[0] as int])
    } else {
        pane_at(panes[node[0] as int].panes@, node.drop_first())
    }
}

/// The tmux flag for a window's top-level panes.
pub open spec fn window_flag(w: Window) -> Seq<char> {
    if w.panes@.len() > 0 && w.panes@[0].split == Some(SplitDirection::Horizontal) {
        "-v"@
    } else {
        "-h"@
    }
}

/// The tmux flag for a pane's children.
pub open spec fn pane_flag(p: Pane) -> Seq<char> {
    if p.split == Some(SplitDirection::Vertical) {
        "-h"@
    } else {
        "-v"@
    }
}

/// A group of sibling panes: the panes, the percentages of the splits
/// between them, and the tmux flag that lays them out.
pub struct Group {
    pub panes: Seq<Pane>,
    pub percents: Seq<u32>,
    pub flag: Seq<char>,
}

/// The group that `node` names in configured window `w`.
pub open spec fn group_of(cfg: &Config, w: Option<usize>, node: Seq<usize>) -> Option<Group> {
    match w {
        Some(wi) => if wi < cfg.windows@.len() {
            let win = cfg.windows@[wi as int];
            if node.len() == 0 {
                Some(Group { panes: win.panes@, percents: win.split_percents@, flag: window_flag(win) })
            } else {
                match pane_at(win.panes@, node) {
                    Some(p) => Some(Group { panes: p.panes@, percents: p.split_percents@, flag: pane_flag(p) }),
                    None => None,
                }
            }
        } else {
            None
        },
        None => None,
    }
}

/// Every pane has a split percentage for each split between its children.
pub open spec fn panes_sized(panes: Seq<Pane>, percents: Seq<u32>) -> bool
    decreases panes,
{
    &&& percents.len() + 1 >= panes.len()
    &&& forall|i: int|
        0 <= i < panes.len() ==> panes_sized(
            #[trigger] panes[i].panes@,
            panes[i].split_percents@,
        )
}

/// Every configured window has its split percentages.
pub open spec fn config_sized(cfg: &Config) -> bool {
    forall|w: int|
        0 <= w < cfg.windows@.len() ==> panes_sized(
            #[trigger] cfg.windows@[w].panes@,
            cfg.windows@[w].split_percents@,
        )
}

/// The first configured window called `name`.
pub open spec fn first_window(cfg: &Config, name: Seq<char>, w: int) -> bool {
    &&& 0 <= w < cfg.windows@.len()
    &&& cfg.windows@[w].name@ == name
    &&& forall|k: int| 0 <= k < w ==> #[trigger] cfg.windows@[k].name@ != name
}

/// The configured window called `name`, if any.
pub open spec fn window_named(cfg: &Config, name: Seq<char>) -> Option<usize> {
    if exists|w: int| first_window(cfg, name, w) {
        Some((choose|w: int| first_window(cfg, name, w)) as usize)
    } else {
        None
    }
}

/// The state with the reply to the last action taken in; `None` where the
/// reply says that a window could not be created.
pub open spec fn take_reply(cfg: &Config, b: BuilderView, reply: Option<Seq<char>>) -> Option<
    BuilderView,
> {
    let b0 = BuilderView { waiting: Waiting::Nothing, ..b };
    match b.waiting {
        Waiting::Nothing => Some(b0),
        Waiting::WindowPane => match reply {
            None => None,
            Some(id) => match b.current {
                Some(w) => if w < cfg.windows@.len() && cfg.windows@[w as int].panes@.len() > 0 {
                    Some(
                        BuilderView {
                            stack: b.stack.push(
                                FrameView {
                                    node: Seq::empty(),
                                    ids: seq![id],
                                    splitting: true,
                                    next_child: 0,
                                },
                            ),
                            ..b0
                        },
                    )
                } else {
                    Some(b0)
                },
                None => Some(b0),
            },
        },
        Waiting::SplitPane => if b.stack.len() == 0 {
            Some(b0)
        } else {
            let top = b.stack.last();
            let top2 = match reply {
                Some(id) => FrameView { ids: top.ids.push(id), ..top },
                None => FrameView { splitting: false, ..top },
            };
            Some(BuilderView { stack: b.stack.drop_last().push(top2), ..b0 })
        },
    }
}

/// One step of laying out the current group of panes, or of moving on to
/// the next window.
pub open spec fn advance(cfg: &Config, session: &Session, b: BuilderView) -> (
    BuilderView,
    ActionView,
) {
    if b.stack.len() > 0 {
        let top = b.stack.last();
        let rest = b.stack.drop_last();
        match group_of(cfg, b.current, top.node) {
            Some(g) => if top.splitting && 0 < top.ids.len() < g.panes.len() {
                (
                    BuilderView { waiting: Waiting::SplitPane, ..b },
                    ActionView::Split {
                        flag: g.flag,
                        percent: g.percents[top.ids.len() - 1],
                        target: top.ids.last(),
                    },
                )
            } else if top.next_child < top.ids.len() && top.next_child < g.panes.len() {
                let k = top.next_child;
                let child = g.panes[k as int];
                let id = top.ids[k as int];
                let top2 = FrameView { splitting: false, next_child: (k + 1) as usize, ..top };
                if child.panes@.len() > 0 {
                    let inner = FrameView {
                        node: top.node.push(k),
                        ids: seq![id],
                        splitting: true,
                        next_child: 0,
                    };
                    (BuilderView { stack: rest.push(top2).push(inner), ..b }, ActionView::Continue)
                } else {
                    match child.commands {
                        Some(cmds) => if cmds@.len() > 0 {
                            let task = ExecTaskView {
                                pane_id: id,
                                window_name: b.current_name,
                                commands: texts(cmds@),
                                window_number: b.next_window as usize,
                                node: top.node.push(k),
                            };
                            (
                                BuilderView { stack: rest.push(top2), tasks: b.tasks.push(task), ..b },
                                ActionView::Continue,
                            )
                        } else {
                            (BuilderView { stack: rest.push(top2), ..b }, ActionView::Continue)
                        },
                        None => (BuilderView { stack: rest.push(top2), ..b }, ActionView::Continue),
                    }
                }
            } else {
                (BuilderView { stack: rest, ..b }, ActionView::Continue)
            },
            None => (BuilderView { stack: rest, ..b }, ActionView::Continue),
        }
    } else if b.hooks_due {
        (
            BuilderView { hooks_due: false, ..b },
            ActionView::SpawnHooks {
                window: match b.current {
                    Some(w) => w,
                    None => 0,
                },
                name: b.current_name,
            },
        )
    } else if b.next_window < session.windows@.len() {
        let name = session.windows@[b.next_window as int]@;
        let w = window_named(cfg, name);
        (
            BuilderView {
                next_window: b.next_window + 1,
                current: w,
                current_name: name,
                waiting: Waiting::WindowPane,
                hooks_due: match w {
                    Some(wi) => cfg.windows@[wi as int].hooks@.len() > 0,
                    None => false,
                },
                ..b
            },
            ActionView::CreateWindow { first: b.next_window == 0, name },
        )
    } else {
        (b, ActionView::Finished)
    }
}

/// One step of building the session: the reply to the last action is
/// taken in, then the next action is worked out.
pub open spec fn build_step(
    cfg: &Config,
    session: &Session,
    b: BuilderView,
    reply: Option<Seq<char>>,
) -> (BuilderView, ActionView) {
    match take_reply(cfg, b, reply) {
        None => (BuilderView { waiting: Waiting::Nothing, ..b }, ActionView::Failed),
        Some(b2) => advance(cfg, session, b2),
    }
}

/// The text of an optional reply.
pub open spec fn reply_text(r: Option<String>) -> Option<Seq<char>> {
    match r {
        Some(s) => Some(s@),
        None => None,
    }
}

proof fn lemma_pane_at_sized(panes: Seq<Pane>, percents: Seq<u32>, node: Seq<usize>)
    requires
        panes_sized(panes, percents),
    ensures
        pane_at(panes, node) matches Some(p) ==> panes_sized(p.panes@, p.split_percents@),
    decreases node.len(),
{
    if node.len() > 0 && node[0] < panes.len() {
        let q = panes[node[0] as int];
        assert(panes_sized(q.panes@, q.split_percents@));
        if node.len() > 1 {
            lemma_pane_at_sized(q.panes@, q.split_percents@, node.drop_first());
        }
    }
}

/// A copy of a list of child indices.
fn clone_node(v: &Vec<usize>) -> (r: Vec<usize>)
    ensures
        r@ == v@,
{
    let mut r: Vec<usize> = Vec::new();
    let mut i: usize = 0;
    while i < v.len()
        invariant
            i <= v.len(),
            r@ == v@.take(i as int),
        decreases v.len() - i,
    {
        r.push(v[i]);
        assert(v@.take(i + 1) =~= v@.take(i as int).push(v@[i as int]));
        i = i + 1;
    }
    assert(v@.take(v.len() as int) =~= v@);
    r
}

/// A copy of a list of strings.
pub fn clone_strings(v: &Vec<String>) -> (r: Vec<String>)
    ensures
        texts(r@) == texts(v@),
{
    let mut r: Vec<String> = Vec::new();
    let mut i: usize = 0;
    while i < v.len()
        invariant
            i <= v.len(),
            texts(r@) == texts(v@).take(i as int),
        decreases v.len() - i,
    {
        let s = v[i].clone();
        let ghost before = r@;
        r.push(s);
        proof {
            assert(s@ == v@[i as int]@);
            assert(r@ == before.push(s));
            assert(texts(r@) =~= texts(before).push(s@));
            assert(texts(v@).take(i + 1) =~= texts(v@).take(i as int).push(v@[i as int]@));
        }
        i = i + 1;
    }
    assert(texts(v@).take(v.len() as int) =~= texts(v@));
    r
}

/// The pane that `node[from..]` leads to from `panes`.
fn find_pane<'a>(panes: &'a Vec<Pane>, node: &Vec<usize>, from: usize) -> (r: Option<&'a Pane>)
    requires
        from <= node.len(),
    ensures
        match r {
            Some(p) => pane_at(panes@, node@.skip(from as int)) == Some(*p),
            None => pane_at(panes@, node@.skip(from as int)) is None,
        },
    decreases node.len() - from,
{
    let ghost n = node@.skip(from as int);
    if from == node.len() || node[from] >= panes.len() {
        return None;
    }
    let p = &panes[node[from]];
    if from + 1 == node.len() {
        return Some(p);
    }
    assert(n.drop_first() =~= node@.skip(from + 1));
    find_pane(&p.panes, node, from + 1)
}

impl Config {
    /// The first configured window called `name`.
    pub fn find_window(&self, name: &String) -> (r: Option<usize>)
        ensures
            r == window_named(self, name@),
    {
        let mut w: usize = 0;
        while w < self.windows.len()
            invariant
                w <= self.windows.len(),
                forall|k: int| 0 <= k < w ==> #[trigger] self.windows@[k].name@ != name@,
            decreases self.windows.len() - w,
        {
            if self.windows[w].name == *name {
                proof {
                    assert(first_window(self, name@, w as int));
                    let c = choose|c: int| first_window(self, name@, c);
                    if c < w {
                        assert(self.windows@[c].name@ != name@);
                    }
                    if w < c {
                        assert(self.windows@[w as int].name@ != name@);
                    }
                }
                return Some(w);
            }
            w = w + 1;
        }
        None
    }
}

impl SessionBuilder {
    /// The state before the first window is created.
    pub fn new() -> (r: SessionBuilder)
        ensures
            r@.next_window == 0,
            r@.current is None,
            r@.current_name.len() == 0,
            r@.stack.len() == 0,
            r@.tasks.len() == 0,
            r@.waiting == Waiting::Nothing,
            !r@.hooks_due,
    {
        SessionBuilder {
            next_window: 0,
            current: None,
            current_name: String::new(),
            stack: Vec::new(),
            tasks: Vec::new(),
            waiting: Waiting::Nothing,
            hooks_due: false,
        }
    }

    /// Takes in tmux's answer to the last action: the id of a new pane, or
    /// `None` where tmux failed. Returns `false` where a window could not be
    /// created.
    fn take_reply(&mut self, cfg: &Config, reply: Option<String>) -> (ok: bool)
        ensures
            ok == take_reply(cfg, old(self)@, reply_text(reply)) is Some,
            ok ==> Some(final(self)@) == take_reply(cfg, old(self)@, reply_text(reply)),
            !ok ==> final(self)@ == (BuilderView { waiting: Waiting::Nothing, ..old(self)@ }),
    {
        let waiting = self.waiting;
        self.waiting = Waiting::Nothing;
        match waiting {
            Waiting::Nothing => true,
            Waiting::WindowPane => match reply {
                None => false,
                Some(id) => {
                    match self.current {
                        Some(w) => {
                            if w < cfg.windows.len() && cfg.windows[w].panes.len() > 0 {
                                let ghost id_text = id@;
                                let mut ids: Vec<String> = Vec::new();
                                ids.push(id);
                                let frame = Frame {
                                    node: Vec::new(),
                                    ids,
                                    splitting: true,
                                    next_child: 0,
                                };
                                assert(frame@.ids =~= seq![id_text]);
                                assert(frame@.node =~= Seq::<usize>::empty());
                                self.stack.push(frame);
                                assert(self@.stack =~= old(self)@.stack.push(frame@));
                            }
                        },
                        None => {},
                    }
                    true
                },
            },
            Waiting::SplitPane => {
                if self.stack.len() == 0 {
                    return true;
                }
                let mut top = self.stack.pop().unwrap();
                let ghost top0 = top@;
                assert(top0 == old(self)@.stack.last());
                match reply {
                    Some(id) => {
                        top.ids.push(id);
                        assert(top@.ids =~= top0.ids.push(reply_text(reply).unwrap()));
                    },
                    None => {
                        top.splitting = false;
                    },
                }
                self.stack.push(top);
                assert(self@.stack =~= old(self)@.stack.drop_last().push(top@));
                true
            },
        }
    }

    /// One step of building `session` as `cfg` describes it: takes in
    /// tmux's answer to the last action (`None` where tmux failed) and says
    /// what to do next.
    pub fn step(&mut self, cfg: &Config, session: &Session, reply: Option<String>) -> (r:
        BuildAction)
        requires
            config_sized(cfg),
        ensures
            (final(self)@, r@) == build_step(cfg, session, old(self)@, reply_text(reply)),
    {
        if !self.take_reply(cfg, reply) {
            return BuildAction::Failed;
        }
        self.advance(cfg, session)
    }

    fn advance(&mut self, cfg: &Config, session: &Session) -> (r: BuildAction)
        requires
            config_sized(cfg),
        ensures
            (final(self)@, r@) == advance(cfg, session, old(self)@),
    {
        if self.stack.len() > 0 {
            let ghost b = self@;
            let mut top = self.stack.pop().unwrap();
            let ghost top0 = top@;
            assert(top0 == b.stack.last());
            assert(self@.stack =~= b.stack.drop_last());
            let (panes, percents, flag): (&Vec<Pane>, &Vec<u32>, &'static str) = match self.current {
                Some(w) => {
                    if w >= cfg.windows.len() {
                        return BuildAction::Continue;
                    }
                    let win = &cfg.windows[w];
                    if top.node.len() == 0 {
                        (&win.panes, &win.split_percents, window_split_arg(win))
                    } else {
                        match find_pane(&win.panes, &top.node, 0) {
                            Some(p) => (&p.panes, &p.split_percents, pane_split_arg(p)),
                            None => {
                                assert(top.node@.skip(0) =~= top.node@);
                                return BuildAction::Continue;
                            },
                        }
                    }
                },
                None => {
                    return BuildAction::Continue;
                },
            };
            let ghost g = group_of(cfg, b.current, top0.node).unwrap();
            proof {
                assert(top.node@.skip(0) =~= top.node@);
                assert(g.panes == panes@);
                assert(g.percents == percents@);
                assert(g.flag == flag@);
                let w = b.current.unwrap();
                assert(panes_sized(cfg.windows@[w as int].panes@, cfg.windows@[w as int].split_percents@));
                lemma_pane_at_sized(cfg.windows@[w as int].panes@, cfg.windows@[w as int].split_percents@, top0.node);
                assert(panes_sized(panes@, percents@));
            }
            if top.splitting && 0 < top.ids.len() && top.ids.len() < panes.len() {
                let target = top.ids[top.ids.len() - 1].clone();
                let percent = percents[top.ids.len() - 1];
                self.stack.push(top);
                self.waiting = Waiting::SplitPane;
                assert(self@.stack =~= b.stack);
                return BuildAction::Split { flag: owned(flag), percent, target };
            }
            top.splitting = false;
            if top.next_child < top.ids.len() && top.next_child < panes.len() {
                let k = top.next_child;
                top.next_child = k + 1;
                let child = &panes[k];
                let id = top.ids[k].clone();
                if child.panes.len() > 0 {
                    let mut node = clone_node(&top.node);
                    node.push(k);
                    let mut ids: Vec<String> = Vec::new();
                    ids.push(id);
                    let ghost top2 = top@;
                    self.stack.push(top);
                    let inner = Frame { node, ids, splitting: true, next_child: 0 };
                    assert(inner@.node =~= top0.node.push(k));
                    assert(inner@.ids =~= seq![top0.ids[k as int]]);
                    self.stack.push(inner);
                    assert(self@.stack =~= b.stack.drop_last().push(top2).push(inner@));
                } else {
                    match &child.commands {
                        Some(cmds) => {
                            if cmds.len() > 0 {
                                let mut node = clone_node(&top.node);
                                node.push(k);
                                let task = ExecTask {
                                    pane_id: id,
                                    window_name: self.current_name.clone(),
                                    commands: clone_strings(cmds),
                                    window_number: self.next_window,
                                    node,
                                };
                                assert(task@.node =~= top0.node.push(k));
                                let ghost t = task@;
                                self.tasks.push(task);
                                assert(self@.tasks =~= b.tasks.push(t));
                            }
                        },
                        None => {},
                    }
                    let ghost top2 = top@;
                    self.stack.push(top);
                    assert(self@.stack =~= b.stack.drop_last().push(top2));
                }
                return BuildAction::Continue;
            }
            return BuildAction::Continue;
        }
        if self.hooks_due {
            self.hooks_due = false;
            let window = match self.current {
                Some(w) => w,
                None => 0,
            };
            return BuildAction::SpawnHooks { window, name: self.current_name.clone() };
        }
        if self.next_window < session.windows.len() {
            let name = session.windows[self.next_window].clone();
            let w = cfg.find_window(&name);
            let first = self.next_window == 0;
            self.next_window = self.next_window + 1;
            self.current = w;
            self.current_name = name.clone();
            self.waiting = Waiting::WindowPane;
            self.hooks_due = match w {
                Some(wi) => cfg.windows[wi].hooks.len() > 0,
                None => false,
            };
            return BuildAction::CreateWindow { first, name };
        }
        BuildAction::Finished
    }
}

/// Whether every pane in `panes`, at every depth, has a split percentage
/// for each split between its children, and `percents` one for each split
/// between `panes`.
pub fn panes_are_sized(panes: &Vec<Pane>, percents: &Vec<u32>) -> (r: bool)
    ensures
        r == panes_sized(panes@, percents@),
    decreases panes@,
{
    if panes.len() > 0 && percents.len() < panes.len() - 1 {
        return false;
    }
    let mut i: usize = 0;
    while i < panes.len()
        invariant
            i <= panes.len(),
            forall|k: int|
                0 <= k < i ==> panes_sized(#[trigger] panes@[k].panes@, panes@[k].split_percents@),
        decreases panes.len() - i,
    {
        let p = &panes[i];
        assert(decreases_to!(panes@ => panes@[i as int]));
        if !panes_are_sized(&p.panes, &p.split_percents) {
            return false;
        }
        i = i + 1;
    }
    true
}

/// Whether every configured window, at every depth, has its split
/// percentages (what `SessionBuilder::step` needs).
pub fn config_is_sized(cfg: &Config) -> (r: bool)
    ensures
        r == config_sized(cfg),
{
    let mut w: usize = 0;
    while w < cfg.windows.len()
        invariant
            w <= cfg.windows.len(),
            forall|k: int|
                0 <= k < w ==> panes_sized(
                    #[trigger] cfg.windows@[k].panes@,
                    cfg.windows@[k].split_percents@,
                ),
        decreases cfg.windows.len() - w,
    {
        if !panes_are_sized(&cfg.windows[w].panes, &cfg.windows[w].split_percents) {
            return false;
        }
        w = w + 1;
    }
    true
}

/// Every pane id that the state holds, in its groups and its tasks, is in
/// `known`.
pub open spec fn ids_known(b: BuilderView, known: Set<Seq<char>>) -> bool {
    &&& forall|f: int, k: int|
        0 <= f < b.stack.len() && 0 <= k < b.stack[f].ids.len() ==> known.contains(
            #[trigger] b.stack[f].ids[k],
        )
    &&& forall|t: int| 0 <= t < b.tasks.len() ==> known.contains(#[trigger] b.tasks[t].pane_id)
}

proof fn lemma_take_reply_known(
    cfg: &Config,
    b: BuilderView,
    reply: Option<Seq<char>>,
    known: Set<Seq<char>>,
)
    requires
        ids_known(b, known),
    ensures
        take_reply(cfg, b, reply) matches Some(b2) ==> ids_known(
            b2,
            match reply {
                Some(id) => known.insert(id),
                None => known,
            },
        ),
{
    let known2 = match reply {
        Some(id) => known.insert(id),
        None => known,
    };
    if let Some(b2) = take_reply(cfg, b, reply) {
        assert forall|f: int, k: int|
            0 <= f < b2.stack.len() && 0 <= k < b2.stack[f].ids.len() implies known2.contains(
            #[trigger] b2.stack[f].ids[k],
        ) by {
            if f < b.stack.len() - 1 || (b.waiting == Waiting::Nothing) || (b.waiting
                == Waiting::WindowPane && f < b.stack.len()) {
                assert(b2.stack[f] == b.stack[f]);
            } else if b.waiting == Waiting::SplitPane && b.stack.len() > 0 && f == b.stack.len()
                - 1 {
                let top = b.stack.last();
                if k < top.ids.len() {
                    assert(b2.stack[f].ids[k] == top.ids[k]);
                }
            }
        }
        assert forall|t: int| 0 <= t < b2.tasks.len() implies known2.contains(
            #[trigger] b2.tasks[t].pane_id,
        ) by {
            assert(b2.tasks[t] == b.tasks[t]);
        }
    }
}

proof fn lemma_advance_known(
    cfg: &Config,
    session: &Session,
    b: BuilderView,
    known: Set<Seq<char>>,
)
    requires
        ids_known(b, known),
    ensures
        ids_known(advance(cfg, session, b).0, known),
        advance(cfg, session, b).1 matches ActionView::Split { target, .. } ==> known.contains(
            target,
        ),
{
    let (b2, a) = advance(cfg, session, b);
    if b.stack.len() > 0 {
        let top = b.stack.last();
        let rest = b.stack.drop_last();
        let f_top = b.stack.len() - 1;
        assert(forall|k: int| 0 <= k < top.ids.len() ==> known.contains(#[trigger] top.ids[k]) ) by {
            assert forall|k: int| 0 <= k < top.ids.len() implies known.contains(#[trigger] top.ids[k]) by {
                assert(b.stack[f_top].ids[k] == top.ids[k]);
            }
        }
        if let Some(g) = group_of(cfg, b.current, top.node) {
            if top.splitting && 0 < top.ids.len() < g.panes.len() {
                assert(top.ids.last() == top.ids[top.ids.len() - 1]);
            }
        }
        assert forall|f: int, k: int|
            0 <= f < b2.stack.len() && 0 <= k < b2.stack[f].ids.len() implies known.contains(
            #[trigger] b2.stack[f].ids[k],
        ) by {
            if f < rest.len() {
                assert(b2.stack[f] == b.stack[f]);
            } else if f == rest.len() {
                assert(b2.stack[f].ids == top.ids);
            } else {
                let kk = top.next_child as int;
                assert(b2.stack[f].ids =~= seq![top.ids[kk]]);
                assert(b2.stack[f].ids[k] == top.ids[kk]);
            }
        }
        assert forall|t: int| 0 <= t < b2.tasks.len() implies known.contains(
            #[trigger] b2.tasks[t].pane_id,
        ) by {
            if t < b.tasks.len() {
                assert(b2.tasks[t] == b.tasks[t]);
            } else {
                let kk = top.next_child as int;
                assert(b2.tasks[t].pane_id == top.ids[kk]);
            }
        }
    } else {
        assert forall|t: int| 0 <= t < b2.tasks.len() implies known.contains(
            #[trigger] b2.tasks[t].pane_id,
        ) by {
            assert(b2.tasks[t] == b.tasks[t]);
        }
    }
}

/// Building a session only ever splits, and only ever gives commands to,
/// panes whose ids tmux has handed back: if every pane id held before a
/// step is known, then after it every pane id held is known or is the one
/// just handed back, and so is any pane a split targets.
pub proof fn panes_used_are_panes_made(
    cfg: &Config,
    session: &Session,
    b: BuilderView,
    reply: Option<Seq<char>>,
    known: Set<Seq<char>>,
)
    requires
        ids_known(b, known),
    ensures
        ({
            let known2 = match reply {
                Some(id) => known.insert(id),
                None => known,
            };
            let (b2, a) = build_step(cfg, session, b, reply);
            &&& ids_known(b2, known2)
            &&& (a matches ActionView::Split { target, .. } ==> known2.contains(target))
        }),
{
    let known2 = match reply {
        Some(id) => known.insert(id),
        None => known,
    };
    lemma_take_reply_known(cfg, b, reply, known);
    match take_reply(cfg, b, reply) {
        Some(b2) => {
            lemma_advance_known(cfg, session, b2, known2);
        },
        None => {
            let b3 = BuilderView { waiting: Waiting::Nothing, ..b };
            assert(ids_known(b3, known));
            assert forall|f: int, k: int|
                0 <= f < b3.stack.len() && 0 <= k < b3.stack[f].ids.len() implies known2.contains(
                #[trigger] b3.stack[f].ids[k],
            ) by {
                assert(known.contains(b3.stack[f].ids[k]));
            }
            assert forall|t: int| 0 <= t < b3.tasks.len() implies known2.contains(
                #[trigger] b3.tasks[t].pane_id,
            ) by {
                assert(known.contains(b3.tasks[t].pane_id));
            }
        },
    }
}

proof fn lemma_pane_at_push(panes: Seq<Pane>, node: Seq<usize>, k: usize)
    ensures
        pane_at(panes, node.push(k)) == (if node.len() == 0 {
            if k < panes.len() {
                Some(panes[k as int])
            } else {
                None
            }
        } else {
            match pane_at(panes, node) {
                Some(p) => if k < p.panes@.len() {
                    Some(p.panes@[k as int])
                } else {
                    None
                },
                None => None,
            }
        }),
    decreases node.len(),
{
    let n2 = node.push(k);
    if node.len() == 0 {
        assert(n2 =~= seq![k]);
    } else {
        assert(n2[0] == node[0]);
        if node[0] < panes.len() {
            if node.len() == 1 {
                let q = panes[node[0] as int];
                assert(n2.drop_first() =~= seq![k]);
                assert(pane_at(panes, node) == Some(q));
                assert(pane_at(q.panes@, seq![k]) == (if k < q.panes@.len() {
                    Some(q.panes@[k as int])
                } else {
                    None
                }));
            } else {
                assert(n2.drop_first() =~= node.drop_first().push(k));
                lemma_pane_at_push(panes[node[0] as int].panes@, node.drop_first(), k);
            }
        }
    }
}

/// `cmds` is the `exec` list of a pane, with no child panes, that `node`
/// leads to in configured window `w`.
pub open spec fn leaf_with_commands(cfg: &Config, w: int, node: Seq<usize>, cmds: Seq<Seq<char>>) -> bool {
    &&& 0 <= w < cfg.windows@.len()
    &&& pane_at(cfg.windows@[w].panes@, node) matches Some(p)
    &&& p.panes@.len() == 0
    &&& p.commands matches Some(c)
    &&& c@.len() > 0
    &&& texts(c@) == cmds
}

/// The task runs the commands of a pane without children in the configured
/// window of its name.
pub open spec fn task_from_leaf(cfg: &Config, t: ExecTaskView) -> bool {
    exists|w: int, node: Seq<usize>|
        #![trigger leaf_with_commands(cfg, w, node, t.commands)]
        cfg.windows@[w].name@ == t.window_name && leaf_with_commands(cfg, w, node, t.commands)
}

/// The window being laid out is the configured window of its name, and
/// every task runs the commands of a pane without children.
pub open spec fn tasks_from_leaves(cfg: &Config, b: BuilderView) -> bool {
    &&& (b.current matches Some(w) ==> w < cfg.windows@.len() && cfg.windows@[w as int].name@
        == b.current_name)
    &&& forall|t: int| 0 <= t < b.tasks.len() ==> task_from_leaf(cfg, #[trigger] b.tasks[t])
}

/// Building a session gives commands only to panes that have no child
/// panes and a non-empty `exec` list, and those commands are that list: a
/// step keeps this true of every task.
pub proof fn tasks_come_from_leaf_panes(
    cfg: &Config,
    session: &Session,
    b: BuilderView,
    reply: Option<Seq<char>>,
)
    requires
        tasks_from_leaves(cfg, b),
    ensures
        tasks_from_leaves(cfg, build_step(cfg, session, b, reply).0),
{
    match take_reply(cfg, b, reply) {
        None => {
            let b3 = BuilderView { waiting: Waiting::Nothing, ..b };
            assert forall|t: int| 0 <= t < b3.tasks.len() implies task_from_leaf(cfg, #[trigger] b3.tasks[t]) by {
                assert(b3.tasks[t] == b.tasks[t]);
            }
        },
        Some(b2) => {
            assert(b2.tasks == b.tasks);
            assert(b2.current == b.current && b2.current_name == b.current_name);
            let (b4, a) = advance(cfg, session, b2);
            if b2.stack.len() > 0 {
                let top = b2.stack.last();
                match group_of(cfg, b2.current, top.node) {
                    Some(g) => {
                        if !(top.splitting && 0 < top.ids.len() < g.panes.len())
                            && top.next_child < top.ids.len() && top.next_child < g.panes.len() {
                            let k = top.next_child;
                            let child = g.panes[k as int];
                            if child.panes@.len() == 0 {
                                if let Some(cmds) = child.commands {
                                    if cmds@.len() > 0 {
                                        let w = b2.current.unwrap();
                                        let node = top.node.push(k);
                                        lemma_pane_at_push(cfg.windows@[w as int].panes@, top.node, k);
                                        assert(leaf_with_commands(cfg, w as int, node, texts(cmds@)));
                                        let t_new = b4.tasks.last();
                                        assert(t_new.commands == texts(cmds@));
                                        assert(task_from_leaf(cfg, t_new));
                                        assert forall|t: int| 0 <= t < b4.tasks.len() implies task_from_leaf(
                                            cfg,
                                            #[trigger] b4.tasks[t],
                                        ) by {
                                            if t < b2.tasks.len() {
                                                assert(b4.tasks[t] == b2.tasks[t]);
                                            }
                                        }
                                    }
                                }
                            }
                        }
                    },
                    None => {},
                }
            } else if !b2.hooks_due && b2.next_window < session.windows@.len() {
                let name = session.windows@[b2.next_window as int]@;
                if exists|w: int| first_window(cfg, name, w) {
                    let w = choose|w: int| first_window(cfg, name, w);
                    assert(cfg.windows@.len() == cfg.windows.len());
                    assert(b4.current == Some(w as usize));
                }
            }
        },
    }
}

/// The session's windows are created once each, in the order the session
/// lists them, the first one together with the session: a step that asks
/// for a window asks for the next one listed and moves past it, and any
/// other step leaves the position unchanged.
pub proof fn windows_created_in_order(
    cfg: &Config,
    session: &Session,
    b: BuilderView,
    reply: Option<Seq<char>>,
)
    ensures
        ({
            let (b2, a) = build_step(cfg, session, b, reply);
            &&& (a matches ActionView::CreateWindow { first, name } ==> {
                &&& b.next_window < session.windows@.len()
                &&& name == session.windows@[b.next_window as int]@
                &&& first == (b.next_window == 0)
                &&& b2.next_window == b.next_window + 1
            })
            &&& (!(a is CreateWindow) ==> b2.next_window == b.next_window)
        }),
{
}

/// No group holds more pane ids than the configuration lists panes for it;
/// a split is awaited only for a group that is still short of panes; a new
/// window is awaited only when no group is open.
pub open spec fn groups_within_config(cfg: &Config, b: BuilderView) -> bool {
    &&& forall|f: int|
        0 <= f < b.stack.len() ==> (group_of(cfg, b.current, #[trigger] b.stack[f].node) matches Some(
            g,
        ) ==> b.stack[f].ids.len() <= g.panes.len())
    &&& (b.waiting == Waiting::SplitPane ==> b.stack.len() > 0 && (group_of(
        cfg,
        b.current,
        b.stack.last().node,
    ) matches Some(g) ==> b.stack.last().ids.len() < g.panes.len()))
    &&& (b.waiting == Waiting::WindowPane ==> b.stack.len() == 0)
}

proof fn lemma_take_reply_within(cfg: &Config, b: BuilderView, reply: Option<Seq<char>>)
    requires
        groups_within_config(cfg, b),
    ensures
        take_reply(cfg, b, reply) matches Some(b2) ==> groups_within_config(cfg, b2)
            && b2.waiting == Waiting::Nothing,
{
    if let Some(b2) = take_reply(cfg, b, reply) {
        assert forall|f: int| 0 <= f < b2.stack.len() implies (group_of(
            cfg,
            b2.current,
            #[trigger] b2.stack[f].node,
        ) matches Some(g) ==> b2.stack[f].ids.len() <= g.panes.len()) by {
            if b.waiting == Waiting::SplitPane && b.stack.len() > 0 && f == b.stack.len() - 1 {
                assert(b2.stack[f].node == b.stack.last().node);
            } else if f < b.stack.len() {
                assert(b2.stack[f] == b.stack[f]);
            }
        }
    }
}

proof fn lemma_advance_within(cfg: &Config, session: &Session, b: BuilderView)
    requires
        groups_within_config(cfg, b),
        b.waiting == Waiting::Nothing,
    ensures
        groups_within_config(cfg, advance(cfg, session, b).0),
{
    let (b2, a) = advance(cfg, session, b);
    if b.stack.len() > 0 {
        let top = b.stack.last();
        let rest = b.stack.drop_last();
        let f_top = b.stack.len() - 1;
        assert(b.stack[f_top] == top);
        if let Some(g) = group_of(cfg, b.current, top.node) {
            if !(top.splitting && 0 < top.ids.len() < g.panes.len())
                && top.next_child < top.ids.len() && top.next_child < g.panes.len() {
                let k = top.next_child;
                let child = g.panes[k as int];
                if child.panes@.len() > 0 {
                    let w = b.current.unwrap();
                    lemma_pane_at_push(cfg.windows@[w as int].panes@, top.node, k);
                    let inner_node = top.node.push(k);
                    assert(pane_at(cfg.windows@[w as int].panes@, inner_node) == Some(child));
                    assert(group_of(cfg, b.current, inner_node) matches Some(g2) && g2.panes
                        == child.panes@);
                }
            }
        }
        assert forall|f: int| 0 <= f < b2.stack.len() implies (group_of(
            cfg,
            b2.current,
            #[trigger] b2.stack[f].node,
        ) matches Some(g) ==> b2.stack[f].ids.len() <= g.panes.len()) by {
            if f < rest.len() {
                assert(b2.stack[f] == b.stack[f]);
            } else if f == rest.len() {
                assert(b2.stack[f].node == top.node);
                assert(b2.stack[f].ids == top.ids);
            }
        }
    }
}

/// A group of panes is never split into more panes than the configuration
/// lists for it: every step keeps each open group within its configured
/// number of panes, and asks for a split only where one is still missing.
pub proof fn splits_stay_within_config(
    cfg: &Config,
    session: &Session,
    b: BuilderView,
    reply: Option<Seq<char>>,
)
    requires
        groups_within_config(cfg, b),
    ensures
        groups_within_config(cfg, build_step(cfg, session, b, reply).0),
{
    lemma_take_reply_within(cfg, b, reply);
    match take_reply(cfg, b, reply) {
        Some(b2) => {
            lemma_advance_within(cfg, session, b2);
        },
        None => {
            let b3 = BuilderView { waiting: Waiting::Nothing, ..b };
            assert forall|f: int| 0 <= f < b3.stack.len() implies (group_of(
                cfg,
                b3.current,
                #[trigger] b3.stack[f].node,
            ) matches Some(g) ==> b3.stack[f].ids.len() <= g.panes.len()) by {
                assert(b3.stack[f] == b.stack[f]);
            }
        },
    }
}

/// Hooks are due only for a configured window that has hooks: the window
/// being laid out, under its own name.
pub open spec fn hooks_due_for_configured(cfg: &Config, b: BuilderView) -> bool {
    b.hooks_due ==> (b.current matches Some(w) && w < cfg.windows@.len() && cfg.windows@[w as int].hooks@.len()
        > 0 && cfg.windows@[w as int].name@ == b.current_name)
}

/// The hooks started are those of a configured window that has hooks, the
/// window just created, and they are started once: a step that starts
/// hooks names such a window and leaves no hooks due.
pub proof fn hooks_started_are_configured(
    cfg: &Config,
    session: &Session,
    b: BuilderView,
    reply: Option<Seq<char>>,
)
    requires
        hooks_due_for_configured(cfg, b),
    ensures
        ({
            let (b2, a) = build_step(cfg, session, b, reply);
            &&& hooks_due_for_configured(cfg, b2)
            &&& (a matches ActionView::SpawnHooks { window, name } ==> {
                &&& window < cfg.windows@.len()
                &&& cfg.windows@[window as int].hooks@.len() > 0
                &&& cfg.windows@[window as int].name@ == name
                &&& !b2.hooks_due
            })
        }),
{
    match take_reply(cfg, b, reply) {
        None => {},
        Some(b2) => {
            assert(b2.hooks_due == b.hooks_due && b2.current == b.current && b2.current_name
                == b.current_name);
            if b2.stack.len() == 0 && !b2.hooks_due && b2.next_window < session.windows@.len() {
                let name = session.windows@[b2.next_window as int]@;
                if exists|w: int| first_window(cfg, name, w) {
                    let w = choose|w: int| first_window(cfg, name, w);
                    assert(cfg.windows@.len() == cfg.windows.len());
                    assert(window_named(cfg, name) == Some(w as usize));
                }
            }
        },
    }
}

/// Each split of a group of panes is made with the group's tmux flag, from
/// its newest pane, and with the group's configured percentage for that
/// split: the split made while the group holds `n` pane ids (`0 < n <` its
/// number of panes) takes `percents[n - 1]`, so the `k`-th split of a group
/// takes its `k`-th percentage. The step that asks for it keeps the group
/// open, waiting for the new pane's id.
pub proof fn each_split_takes_its_own_percentage(
    cfg: &Config,
    session: &Session,
    b: BuilderView,
    reply: Option<Seq<char>>,
)
    ensures
        ({
            let (b4, a) = build_step(cfg, session, b, reply);
            a matches ActionView::Split { flag, percent, target } ==> {
                &&& b4.waiting == Waiting::SplitPane
                &&& b4.stack.len() > 0
                &&& group_of(cfg, b4.current, b4.stack.last().node) matches Some(g)
                &&& 0 < b4.stack.last().ids.len() < g.panes.len()
                &&& percent == g.percents[b4.stack.last().ids.len() - 1]
                &&& target == b4.stack.last().ids[b4.stack.last().ids.len() - 1]
                &&& flag == g.flag
            }
        }),
{
    if let Some(b2) = take_reply(cfg, b, reply) {
        let (b4, a) = advance(cfg, session, b2);
        if a is Split {
            assert(b2.stack.len() > 0);
            assert(b4.stack == b2.stack);
        }
    }
}

/// A split that tmux could not make never fails the build: a step fails
/// exactly when tmux could not create a window.
pub proof fn only_a_missing_window_fails(
    cfg: &Config,
    session: &Session,
    b: BuilderView,
    reply: Option<Seq<char>>,
)
    ensures
        build_step(cfg, session, b, reply).1 is Failed <==> (b.waiting == Waiting::WindowPane
            && reply is None),
{
}

/// Tasks are only ever added at the end, at most one per step: the tasks
/// already collected stay as they are, in front.
pub proof fn tasks_only_grow_at_the_end(
    cfg: &Config,
    session: &Session,
    b: BuilderView,
    reply: Option<Seq<char>>,
)
    ensures
        b.tasks.is_prefix_of(build_step(cfg, session, b, reply).0.tasks),
        build_step(cfg, session, b, reply).0.tasks.len() <= b.tasks.len() + 1,
{
    match take_reply(cfg, b, reply) {
        None => {},
        Some(b2) => {
            assert(b2.tasks == b.tasks);
            let b4 = advance(cfg, session, b2).0;
            if b4.tasks.len() > b.tasks.len() {
                assert(b4.tasks == b.tasks.push(b4.tasks.last()));
            }
        },
    }
}

/// `a` comes before `b` in the order a depth-first, left-to-right walk
/// reaches pane positions: at the first place where they differ, `a` has
/// the smaller child index.
pub open spec fn walk_before(a: Seq<usize>, b: Seq<usize>) -> bool {
    exists|i: int| 0 <= i < a.len() && i < b.len() && a.take(i) == b.take(i) && #[trigger] a[i] < b[i]
}

/// Task `a` comes before task `b`: in an earlier window, or in the same
/// window at a pane the walk reaches earlier.
pub open spec fn task_before(a: ExecTaskView, b: ExecTaskView) -> bool {
    a.window_number < b.window_number || (a.window_number == b.window_number && walk_before(
        a.node,
        b.node,
    ))
}

/// The next position a group will reach: its next child.
pub open spec fn frontier(f: FrameView) -> Seq<usize> {
    f.node.push(f.next_child)
}

/// The tasks are in walk order, and every task of the window being laid
/// out lies before every group's next position, where the groups open are
/// nested: each one is a child that an enclosing group has already reached.
pub open spec fn tasks_in_walk_order(b: BuilderView) -> bool {
    &&& forall|f: int, g: int|
        0 <= f < g < b.stack.len() ==> #[trigger] b.stack[f].next_child >= 1 && b.stack[f].node.push(
            (b.stack[f].next_child - 1) as usize,
        ).is_prefix_of(#[trigger] b.stack[g].node)
    &&& forall|t: int, f: int|
        0 <= t < b.tasks.len() && 0 <= f < b.stack.len() && b.tasks[t].window_number
            == b.next_window ==> walk_before(#[trigger] b.tasks[t].node, frontier(#[trigger] b.stack[f]))
    &&& forall|t: int| 0 <= t < b.tasks.len() ==> #[trigger] b.tasks[t].window_number <= b.next_window
    &&& forall|i: int, j: int|
        0 <= i < j < b.tasks.len() ==> task_before(#[trigger] b.tasks[i], #[trigger] b.tasks[j])
    &&& (b.waiting == Waiting::WindowPane ==> b.stack.len() == 0 && forall|t: int|
        0 <= t < b.tasks.len() ==> #[trigger] b.tasks[t].window_number < b.next_window)
    &&& b.next_window <= usize::MAX
}

proof fn lemma_group_fits(cfg: &Config, w: Option<usize>, node: Seq<usize>)
    ensures
        group_of(cfg, w, node) matches Some(g) ==> g.panes.len() <= usize::MAX,
{
    if let Some(wi) = w {
        if wi < cfg.windows@.len() {
            let win = cfg.windows@[wi as int];
            assert(win.panes.len() == win.panes@.len());
            if node.len() > 0 {
                if let Some(p) = pane_at(win.panes@, node) {
                    assert(p.panes.len() == p.panes@.len());
                }
            }
        }
    }
}

/// A position before `x.push(k)` is also before `x.push(k + 1)` and before
/// `x.push(k).push(0)`.
proof fn lemma_walk_before_extend(t: Seq<usize>, x: Seq<usize>, k: usize)
    requires
        walk_before(t, x.push(k)),
        k < usize::MAX,
    ensures
        walk_before(t, x.push((k + 1) as usize)),
        walk_before(t, x.push(k).push(0)),
{
    let i = choose|i: int|
        0 <= i < t.len() && i < x.push(k).len() && t.take(i) == x.push(k).take(i) && #[trigger] t[i]
            < x.push(k)[i];
    let y = x.push((k + 1) as usize);
    let z = x.push(k).push(0);
    assert(y.take(i) =~= x.push(k).take(i));
    assert(z.take(i) =~= x.push(k).take(i));
    if i < x.len() {
        assert(y[i] == x[i] && x.push(k)[i] == x[i] && z[i] == x[i]);
    } else {
        assert(y[i] == k + 1 && x.push(k)[i] == k && z[i] == k);
    }
    assert(t[i] < y[i]);
    assert(t[i] < z[i]);
}

/// A position inside the child `x.push(c - 1)` comes before `x.push(c)`.
proof fn lemma_inside_earlier_child(x: Seq<usize>, c: usize, n: Seq<usize>)
    requires
        c >= 1,
        x.push((c - 1) as usize).is_prefix_of(n),
    ensures
        walk_before(n, x.push(c)),
{
    let i = x.len() as int;
    assert(n.take(i) =~= x.push(c).take(i)) by {
        assert forall|j: int| 0 <= j < i implies n.take(i)[j] == x.push(c).take(i)[j] by {
            assert(n[j] == x.push((c - 1) as usize)[j]);
        }
    }
    assert(x.push((c - 1) as usize)[i] == c - 1);
    assert(n.subrange(0, i + 1)[i] == n[i]);
    assert(n[i] == c - 1);
    assert(n[i] < x.push(c)[i]);
}

proof fn lemma_take_reply_walk(cfg: &Config, b: BuilderView, reply: Option<Seq<char>>)
    requires
        tasks_in_walk_order(b),
    ensures
        take_reply(cfg, b, reply) matches Some(b2) ==> tasks_in_walk_order(b2)
            && b2.waiting == Waiting::Nothing && b2.tasks == b.tasks && b2.next_window
            == b.next_window,
{
    if let Some(b2) = take_reply(cfg, b, reply) {
        if b.waiting == Waiting::WindowPane {
            assert(b.stack.len() == 0);
            assert forall|t: int, f: int|
                0 <= t < b2.tasks.len() && 0 <= f < b2.stack.len() && b2.tasks[t].window_number
                    == b2.next_window implies walk_before(
                #[trigger] b2.tasks[t].node,
                frontier(#[trigger] b2.stack[f]),
            ) by {
                assert(b.tasks[t].window_number < b.next_window);
            }
        } else {
            assert forall|f: int| 0 <= f < b2.stack.len() implies #[trigger] b2.stack[f].node
                == b.stack[f].node && b2.stack[f].next_child == b.stack[f].next_child by {
                if b.waiting == Waiting::SplitPane && b.stack.len() > 0 && f == b.stack.len() - 1 {
                } else {
                    assert(b2.stack[f] == b.stack[f]);
                }
            }
            assert forall|f: int, g: int| 0 <= f < g < b2.stack.len() implies #[trigger] b2.stack[f].next_child
                >= 1 && b2.stack[f].node.push((b2.stack[f].next_child - 1) as usize).is_prefix_of(
                #[trigger] b2.stack[g].node,
            ) by {
                assert(b2.stack[g].node == b.stack[g].node);
                assert(b2.stack[f].node == b.stack[f].node);
            }
            assert forall|t: int, f: int|
                0 <= t < b2.tasks.len() && 0 <= f < b2.stack.len() && b2.tasks[t].window_number
                    == b2.next_window implies walk_before(
                #[trigger] b2.tasks[t].node,
                frontier(#[trigger] b2.stack[f]),
            ) by {
                assert(b2.stack[f].node == b.stack[f].node);
                assert(frontier(b2.stack[f]) == frontier(b.stack[f]));
            }
        }
    }
}

proof fn lemma_advance_walk(cfg: &Config, session: &Session, b: BuilderView)
    requires
        tasks_in_walk_order(b),
        b.waiting == Waiting::Nothing,
    ensures
        tasks_in_walk_order(advance(cfg, session, b).0),
{
    let (b2, a) = advance(cfg, session, b);
    if b.stack.len() > 0 {
        let top = b.stack.last();
        let rest = b.stack.drop_last();
        let ti = b.stack.len() - 1;
        assert(b.stack[ti] == top);
        match group_of(cfg, b.current, top.node) {
            Some(g) => {
                if top.splitting && 0 < top.ids.len() < g.panes.len() {
                    assert(b2.stack == b.stack && b2.tasks == b.tasks);
                } else if top.next_child < top.ids.len() && top.next_child < g.panes.len() {
                    let k = top.next_child;
                    let child = g.panes[k as int];
                    lemma_group_fits(cfg, b.current, top.node);
                    assert(k < usize::MAX);
                    let top2 = FrameView { splitting: false, next_child: (k + 1) as usize, ..top };
                    assert(k + 1 <= top.ids.len());
                    // frames below the top are unchanged
                    assert forall|f: int| 0 <= f < ti implies #[trigger] b2.stack[f] == b.stack[f] by {}
                    assert(b2.stack[ti] == top2);
                    // old tasks of this window stay before every frontier
                    assert forall|t: int|
                        0 <= t < b.tasks.len() && b.tasks[t].window_number == b.next_window implies
                        walk_before(b.tasks[t].node, top.node.push((k + 1) as usize)) && walk_before(
                        b.tasks[t].node,
                        top.node.push(k).push(0),
                    ) by {
                        assert(frontier(b.stack[ti]) == top.node.push(k));
                        lemma_walk_before_extend(b.tasks[t].node, top.node, k);
                    }
                    if child.panes@.len() > 0 {
                        let inner = FrameView {
                            node: top.node.push(k),
                            ids: seq![top.ids[k as int]],
                            splitting: true,
                            next_child: 0,
                        };
                        assert(b2.stack == rest.push(top2).push(inner));
                        assert(b2.stack[ti + 1] == inner);
                        assert(b2.tasks == b.tasks);
                        assert forall|f: int, h: int| 0 <= f < h < b2.stack.len() implies #[trigger] b2.stack[f].next_child
                            >= 1 && b2.stack[f].node.push((b2.stack[f].next_child - 1) as usize).is_prefix_of(
                            #[trigger] b2.stack[h].node,
                        ) by {
                            if h < ti {
                            } else if h == ti {
                                assert(b2.stack[h].node == b.stack[ti].node);
                            } else {
                                if f == ti {
                                    assert(top2.node.push((top2.next_child - 1) as usize) =~= inner.node);
                                } else {
                                    assert(b.stack[f].node.push((b.stack[f].next_child - 1) as usize).is_prefix_of(
                                        b.stack[ti].node,
                                    ));
                                }
                            }
                        }
                        assert forall|t: int, f: int|
                            0 <= t < b2.tasks.len() && 0 <= f < b2.stack.len() && b2.tasks[t].window_number
                                == b2.next_window implies walk_before(
                            #[trigger] b2.tasks[t].node,
                            frontier(#[trigger] b2.stack[f]),
                        ) by {
                            if f < ti {
                                assert(b2.stack[f] == b.stack[f]);
                            } else if f == ti {
                                assert(frontier(top2) == top.node.push((k + 1) as usize));
                            } else {
                                assert(frontier(inner) == top.node.push(k).push(0));
                            }
                        }
                    } else {
                        assert(b2.stack == rest.push(top2));
                        if b2.tasks.len() > b.tasks.len() {
                            let nt = b2.tasks.last();
                            assert(nt.node == top.node.push(k));
                            assert(nt.window_number == b.next_window);
                            assert(b2.tasks == b.tasks.push(nt));
                            // the new task comes after every earlier one
                            assert forall|i: int, j: int|
                                0 <= i < j < b2.tasks.len() implies task_before(
                                #[trigger] b2.tasks[i],
                                #[trigger] b2.tasks[j],
                            ) by {
                                if j < b.tasks.len() {
                                    assert(b2.tasks[i] == b.tasks[i] && b2.tasks[j] == b.tasks[j]);
                                } else {
                                    assert(b2.tasks[i] == b.tasks[i]);
                                    assert(b2.tasks[j] == nt);
                                    if b.tasks[i].window_number == b.next_window {
                                        assert(frontier(b.stack[ti]) == top.node.push(k));
                                        assert(walk_before(b.tasks[i].node, frontier(b.stack[ti])));
                                    }
                                }
                            }
                            assert forall|t: int, f: int|
                                0 <= t < b2.tasks.len() && 0 <= f < b2.stack.len() && b2.tasks[t].window_number
                                    == b2.next_window implies walk_before(
                                #[trigger] b2.tasks[t].node,
                                frontier(#[trigger] b2.stack[f]),
                            ) by {
                                if t < b.tasks.len() {
                                    assert(b2.tasks[t] == b.tasks[t]);
                                    if f < ti {
                                        assert(b2.stack[f] == b.stack[f]);
                                    } else {
                                        assert(frontier(top2) == top.node.push((k + 1) as usize));
                                    }
                                } else {
                                    assert(b2.tasks[t] == nt);
                                    if f < ti {
                                        assert(b2.stack[f] == b.stack[f]);
                                        lemma_inside_earlier_child(
                                            b.stack[f].node,
                                            b.stack[f].next_child,
                                            nt.node,
                                        );
                                    } else {
                                        assert(frontier(top2) == top.node.push((k + 1) as usize));
                                        lemma_inside_earlier_child(top.node, (k + 1) as usize, nt.node);
                                    }
                                }
                            }
                            assert forall|t: int| 0 <= t < b2.tasks.len() implies #[trigger] b2.tasks[t].window_number
                                <= b2.next_window by {
                                if t < b.tasks.len() {
                                    assert(b2.tasks[t] == b.tasks[t]);
                                }
                            }
                        } else {
                            assert(b2.tasks == b.tasks);
                            assert forall|t: int, f: int|
                                0 <= t < b2.tasks.len() && 0 <= f < b2.stack.len() && b2.tasks[t].window_number
                                    == b2.next_window implies walk_before(
                                #[trigger] b2.tasks[t].node,
                                frontier(#[trigger] b2.stack[f]),
                            ) by {
                                if f < ti {
                                    assert(b2.stack[f] == b.stack[f]);
                                } else {
                                    assert(frontier(top2) == top.node.push((k + 1) as usize));
                                }
                            }
                        }
                        assert forall|f: int, h: int| 0 <= f < h < b2.stack.len() implies #[trigger] b2.stack[f].next_child
                            >= 1 && b2.stack[f].node.push((b2.stack[f].next_child - 1) as usize).is_prefix_of(
                            #[trigger] b2.stack[h].node,
                        ) by {
                            assert(b2.stack[h].node == b.stack[h].node);
                        }
                    }
                } else {
                    assert(b2.stack == rest && b2.tasks == b.tasks);
                    assert forall|f: int| 0 <= f < rest.len() implies #[trigger] b2.stack[f] == b.stack[f] by {}
                }
            },
            None => {
                assert(b2.stack == rest && b2.tasks == b.tasks);
                assert forall|f: int| 0 <= f < rest.len() implies #[trigger] b2.stack[f] == b.stack[f] by {}
            },
        }
    } else {
        assert(session.windows.len() == session.windows@.len());
        assert forall|t: int| 0 <= t < b2.tasks.len() implies #[trigger] b2.tasks[t].window_number
            <= b2.next_window by {
            assert(b2.tasks[t] == b.tasks[t]);
        }
    }
}

/// The commands go out in the order of a depth-first, left-to-right walk of
/// the panes, window after window: every step keeps the tasks in that order
/// (and, by `tasks_only_grow_at_the_end`, only adds behind them).
pub proof fn tasks_follow_the_walk(
    cfg: &Config,
    session: &Session,
    b: BuilderView,
    reply: Option<Seq<char>>,
)
    requires
        tasks_in_walk_order(b),
    ensures
        tasks_in_walk_order(build_step(cfg, session, b, reply).0),
{
    lemma_take_reply_walk(cfg, b, reply);
    match take_reply(cfg, b, reply) {
        Some(b2) => {
            lemma_advance_walk(cfg, session, b2);
        },
        None => {
            let b3 = BuilderView { waiting: Waiting::Nothing, ..b };
            assert(tasks_in_walk_order(b3));
        },
    }
}

/// A builder as `SessionBuilder::new` makes it meets every invariant that
/// the laws above keep, so they hold over a whole build.
pub proof fn a_new_builder_starts_in_order(cfg: &Config, b: BuilderView)
    requires
        b.next_window == 0,
        b.current is None,
        b.stack.len() == 0,
        b.tasks.len() == 0,
        b.waiting == Waiting::Nothing,
        !b.hooks_due,
    ensures
        tasks_in_walk_order(b),
        groups_within_config(cfg, b),
        hooks_due_for_configured(cfg, b),
        tasks_from_leaves(cfg, b),
        ids_known(b, Set::empty()),
{
}

/// The state `b` is about to pass a child of its innermost group that has
/// a pane id, no child panes and a non-empty `exec` list.
pub open spec fn at_leaf_with_commands(cfg: &Config, b: BuilderView) -> bool {
    &&& b.stack.len() > 0
    &&& group_of(cfg, b.current, b.stack.last().node) matches Some(g)
    &&& !(b.stack.last().splitting && 0 < b.stack.last().ids.len() < g.panes.len())
    &&& b.stack.last().next_child < b.stack.last().ids.len()
    &&& b.stack.last().next_child < g.panes.len()
    &&& g.panes[b.stack.last().next_child as int].panes@.len() == 0
    &&& g.panes[b.stack.last().next_child as int].commands matches Some(c)
    &&& c@.len() > 0
}

/// The task for the leaf that `b` is about to pass.
pub open spec fn leaf_task(cfg: &Config, b: BuilderView) -> ExecTaskView {
    let top = b.stack.last();
    let g = group_of(cfg, b.current, top.node).unwrap();
    let k = top.next_child;
    ExecTaskView {
        pane_id: top.ids[k as int],
        window_name: b.current_name,
        commands: texts(g.panes[k as int].commands.unwrap()@),
        window_number: b.next_window as usize,
        node: top.node.push(k),
    }
}

/// Every leaf pane that got a pane id and has commands gets its task, and
/// only such panes do: once tmux's reply is taken in, a step adds a task
/// exactly when it passes such a pane, and the task is that pane's (its id,
/// its commands, its window and position).
pub proof fn a_task_exactly_for_each_leaf_passed(
    cfg: &Config,
    session: &Session,
    b: BuilderView,
    reply: Option<Seq<char>>,
)
    ensures
        take_reply(cfg, b, reply) matches Some(b2) ==> {
            let b4 = build_step(cfg, session, b, reply).0;
            &&& (b4.tasks.len() == b2.tasks.len() + 1 <==> at_leaf_with_commands(cfg, b2))
            &&& (at_leaf_with_commands(cfg, b2) ==> b4.tasks == b2.tasks.push(leaf_task(cfg, b2)))
            &&& (!at_leaf_with_commands(cfg, b2) ==> b4.tasks == b2.tasks)
        },
{
    if let Some(b2) = take_reply(cfg, b, reply) {
        assert(build_step(cfg, session, b, reply).0 == advance(cfg, session, b2).0);
    }
}

/// Each group passes its children one at a time, in order, each once: a
/// step leaves every outer group as it was, moves the innermost one to its
/// next child or not at all, and closes it only once every child that got
/// a pane id has been passed (or its panes cannot be found).
pub proof fn children_are_passed_once_each_in_order(
    cfg: &Config,
    session: &Session,
    b: BuilderView,
    reply: Option<Seq<char>>,
)
    ensures
        take_reply(cfg, b, reply) matches Some(b2) ==> {
            let b4 = build_step(cfg, session, b, reply).0;
            let n = b2.stack.len();
            &&& n > 0 ==> {
                let top = b2.stack.last();
                &&& forall|f: int| 0 <= f < n - 1 ==> #[trigger] b4.stack[f] == b2.stack[f]
                &&& (b4.stack.len() >= n ==> b4.stack[n - 1].node == top.node && (
                b4.stack[n - 1].next_child == top.next_child || b4.stack[n - 1].next_child
                    == top.next_child + 1))
                &&& (b4.stack.len() < n ==> b4.stack.len() == n - 1 && (group_of(
                    cfg,
                    b2.current,
                    top.node,
                ) matches Some(g) ==> top.next_child >= top.ids.len() || top.next_child
                    >= g.panes.len()))
            }
        },
{
    if let Some(b2) = take_reply(cfg, b, reply) {
        let b4 = build_step(cfg, session, b, reply).0;
        assert(b4 == advance(cfg, session, b2).0);
        let n = b2.stack.len();
        if n > 0 {
            let top = b2.stack.last();
            let rest = b2.stack.drop_last();
            lemma_group_fits(cfg, b2.current, top.node);
            match group_of(cfg, b2.current, top.node) {
                Some(g) => {
                    if top.splitting && 0 < top.ids.len() < g.panes.len() {
                        assert(b4.stack == b2.stack);
                    } else if top.next_child < top.ids.len() && top.next_child < g.panes.len() {
                        assert(top.next_child + 1 <= usize::MAX);
                        assert(b4.stack.len() >= n);
                        assert(b4.stack[n - 1].next_child == top.next_child + 1);
                        assert(b4.stack[n - 1].node == top.node);
                    } else {
                        assert(b4.stack == rest);
                    }
                },
                None => {
                    assert(b4.stack == rest);
                },
            }
            assert forall|f: int| 0 <= f < n - 1 implies #[trigger] b4.stack[f] == b2.stack[f] by {
                assert(rest[f] == b2.stack[f]);
            }
        }
    }
}

/// Once the session is built, it stays built: every later step answers
/// `Finished` again, whatever reply it is given.
pub proof fn finished_stays_finished(
    cfg: &Config,
    session: &Session,
    b: BuilderView,
    reply: Option<Seq<char>>,
    later: Option<Seq<char>>,
)
    requires
        build_step(cfg, session, b, reply).1 is Finished,
    ensures
        build_step(cfg, session, build_step(cfg, session, b, reply).0, later).1 is Finished,
        build_step(cfg, session, build_step(cfg, session, b, reply).0, later).0 == build_step(
            cfg,
            session,
            b,
            reply,
        ).0,
{
}

/// The tmux command that creates a window: the session itself with its
/// first window, or another window after the current one.
pub fn create_window_command(session: &str, window: &str, dir: &str, first: bool) -> (r:
    TmuxCommand)
    ensures
        first ==> (r matches TmuxCommand::NewSessionWindow { session: s, window: w, dir: d } && s@
            == session@ && w@ == window@ && d@ == dir@),
        !first ==> (r matches TmuxCommand::NewWindow { session: s, window: w, dir: d } && s@
            == session@ && w@ == window@ && d@ == dir@),
{
    if first {
        TmuxCommand::NewSessionWindow {
            session: owned(session),
            window: owned(window),
            dir: owned(dir),
        }
    } else {
        TmuxCommand::NewWindow { session: owned(session), window: owned(window), dir: owned(dir) }
    }
}

} // verus!
