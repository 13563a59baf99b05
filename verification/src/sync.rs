//! Bringing the registry in line with tmux: sessions that were written down are restored, sessions
//! that tmux holds and the registry does not know are adopted, and sessions that tmux has lost are
//! dropped.

use vstd::prelude::*;
use crate::error::Error;
use crate::home;
use crate::registry;
use crate::registry::{Registry, Saving, SessionMeta};
use crate::session;
use crate::session::{Opening, Session, DEFAULT_COLS, DEFAULT_ROWS};
use crate::text;
use crate::tmux;
use crate::tmux::Run;

verus! {

/// A run that brings the registry in line, under way.
#[derive(Debug)]
pub struct Syncing {
    /// The sessions that were written down.
    pub stored: Vec<SessionMeta>,
    /// The ids of the sessions that tmux holds.
    pub live: Vec<String>,
    /// The home directory.
    pub home: Option<String>,
    /// Whether the sessions are written down at the end even if nothing changed.
    pub always_save: bool,
    /// How many of the sessions that were written down are dealt with.
    pub restored: usize,
    /// How many of the sessions that tmux holds are dealt with.
    pub seen: usize,
    /// The directory of the session that is being adopted, once it is known.
    pub cwd: Option<String>,
    /// How many sessions were dropped because tmux has lost them.
    pub dropped: usize,
    /// How many sessions were adopted.
    pub adopted: usize,
}

/// What has to be done for a run to go on.
#[derive(Debug)]
pub enum SyncAction {
    /// Nothing; the run goes on by itself.
    GoOn,
    /// Ask tmux, with these arguments, for the directory that a session is in.
    AskPath(Vec<String>),
    /// Open a session.
    Open(Opening),
    /// Nothing; the run is over.
    Done,
}

/// How it went.
#[derive(Debug)]
pub enum SyncReply {
    GoneOn,
    Path(Run),
    Opened(Session),
    Failed(Error),
}

/// What is known of the sessions that tmux holds; nothing, if it could not be asked.
pub open spec fn known_live(live: Result<Vec<String>, Error>) -> Seq<Seq<char>> {
    match live {
        Ok(names) => text::texts(names@),
        Err(_) => seq![],
    }
}

fn live_or_none(live: Result<Vec<String>, Error>) -> (r: Vec<String>)
    ensures
        text::texts(r@) == known_live(live),
{
    match live {
        Ok(names) => names,
        Err(_) => {
            let none: Vec<String> = Vec::new();
            assert(text::texts(none@) =~= seq![]);
            none
        },
    }
}

impl Syncing {
    /// The counters stay within what they count.
    pub open spec fn wf(self) -> bool {
        &&& self.restored <= self.stored.len()
        &&& self.adopted <= self.seen <= self.live.len()
    }

    /// The ids of the sessions that tmux holds.
    pub open spec fn names(self) -> Seq<Seq<char>> {
        text::texts(self.live@)
    }

    /// Whether nothing is dealt with yet.
    pub open spec fn fresh(self) -> bool {
        self.restored == 0 && self.seen == 0 && self.adopted == 0 && self.cwd is None
    }

    /// Whether a session that was written down comes next.
    pub open spec fn restoring(self) -> bool {
        self.restored < self.stored.len()
    }

    /// The session that was written down and comes next.
    pub open spec fn meta(self) -> SessionMeta {
        self.stored@[self.restored as int]
    }

    /// Whether it can be restored: tmux holds it still.
    pub open spec fn restorable(self) -> bool {
        self.names().contains(self.meta().id@) && session::valid_id(self.meta().id@)
    }

    /// Whether a session that tmux holds comes next.
    pub open spec fn adopting(self) -> bool {
        !self.restoring() && self.seen < self.live.len()
    }

    /// The id of the session that tmux holds and that comes next.
    pub open spec fn name(self) -> Seq<char> {
        self.live@[self.seen as int]@
    }

    /// Whether everything is dealt with.
    pub open spec fn over(self) -> bool {
        !self.restoring() && !self.adopting()
    }

    /// Whether an action is the one that a run waits for, with these sessions in the registry and
    /// this command for sessions that are adopted.
    pub open spec fn asks_for(self, sessions: Seq<Session>, cmd: Seq<char>, a: SyncAction) -> bool {
        if self.restoring() {
            if self.restorable() {
                a matches SyncAction::Open(o) && o.starts(
                    self.meta().id@,
                    self.meta().cwd@,
                    self.meta().cmd@,
                    DEFAULT_COLS,
                    DEFAULT_ROWS,
                )
            } else {
                a is GoOn
            }
        } else if self.adopting() {
            if registry::has_id(sessions, self.name()) {
                a is GoOn
            } else {
                match text::opt_text(self.cwd) {
                    None => a matches SyncAction::AskPath(args) && text::texts(args@)
                        == tmux::pane_path_command(tmux::tmux_name(self.name())),
                    Some(cwd) => if session::valid_id(self.name()) {
                        a matches SyncAction::Open(o) && o.starts(
                            self.name(),
                            cwd,
                            cmd,
                            DEFAULT_COLS,
                            DEFAULT_ROWS,
                        )
                    } else {
                        a is GoOn
                    },
                }
            }
        } else {
            a is Done
        }
    }

    /// The directory of a session that is adopted: the one that tmux says it is in, or the one
    /// that a session starts in when none is asked for.
    pub open spec fn adopted_cwd(self, run: Run) -> Seq<char> {
        match tmux::pane_path_in(run) {
            Some(p) => p,
            None => home::home_or_root(text::opt_text(self.home)),
        }
    }

    /// Whether a run with these sessions in the registry, when it learns how its action went, goes
    /// on as `next` with the sessions `after`.
    ///
    /// A session that was opened is put in; one that could not be opened is passed over. A reply to
    /// something else than what was asked changes nothing.
    pub open spec fn leads_to(
        self,
        before: Seq<Session>,
        reply: SyncReply,
        next: Syncing,
        after: Seq<Session>,
    ) -> bool {
        if self.restoring() {
            let onward = Syncing { restored: (self.restored + 1) as usize, ..self };
            if self.restorable() {
                match reply {
                    SyncReply::Opened(s) if s.id@ == self.meta().id@ => next == onward && after
                        == registry::with_session(before, s),
                    SyncReply::Failed(_) => next == onward && after == before,
                    _ => next == self && after == before,
                }
            } else {
                next == onward && after == before
            }
        } else if self.adopting() {
            let onward = Syncing { seen: (self.seen + 1) as usize, cwd: None, ..self };
            if registry::has_id(before, self.name()) {
                next == onward && after == before
            } else if self.cwd is None {
                match reply {
                    SyncReply::Path(run) => text::opt_text(next.cwd) == Some(self.adopted_cwd(run))
                        && next == (Syncing { cwd: next.cwd, ..self }) && after == before,
                    _ => next == self && after == before,
                }
            } else if session::valid_id(self.name()) {
                match reply {
                    SyncReply::Opened(s) if s.id@ == self.name() => next == (Syncing {
                        adopted: (self.adopted + 1) as usize,
                        ..onward
                    }) && after == registry::with_session(before, s),
                    SyncReply::Failed(_) => next == onward && after == before,
                    _ => next == self && after == before,
                }
            } else {
                next == onward && after == before
            }
        } else {
            next == self && after == before
        }
    }

    /// What has to be done for the run to go on.
    pub fn action(&self, registry: &Registry) -> (r: SyncAction)
        requires
            self.wf(),
        ensures
            self.asks_for(registry@, registry.command(), r),
    {
        if self.restored < self.stored.len() {
            let m = &self.stored[self.restored];
            if !text::has(&self.live, m.id.as_str()) {
                return SyncAction::GoOn;
            }
            match Session::open(
                m.id.clone(),
                m.cwd.clone(),
                m.cmd.clone(),
                DEFAULT_COLS,
                DEFAULT_ROWS,
            ) {
                Ok(o) => SyncAction::Open(o),
                Err(_) => SyncAction::GoOn,
            }
        } else if self.seen < self.live.len() {
            let name = &self.live[self.seen];
            if registry.contains(name.as_str()) {
                return SyncAction::GoOn;
            }
            match &self.cwd {
                None => {
                    let held = tmux::name_of(name.as_str());
                    SyncAction::AskPath(tmux::ask_pane_path(held.as_str()))
                },
                Some(cwd) => match Session::open(
                    name.clone(),
                    cwd.clone(),
                    registry.default_cmd().to_string(),
                    DEFAULT_COLS,
                    DEFAULT_ROWS,
                ) {
                    Ok(o) => SyncAction::Open(o),
                    Err(_) => SyncAction::GoOn,
                },
            }
        } else {
            SyncAction::Done
        }
    }

    /// Takes in how the action went.
    pub fn step(&mut self, registry: &mut Registry, reply: SyncReply)
        requires
            old(self).wf(),
            old(registry).wf(),
            reply matches SyncReply::Opened(s) ==> s.wf(),
        ensures
            final(self).wf(),
            final(registry).wf(),
            final(registry).same_but_sessions(*old(registry)),
            old(self).leads_to(old(registry)@, reply, *final(self), final(registry)@),
    {
        if self.restored < self.stored.len() {
            let m = &self.stored[self.restored];
            let id = m.id.clone();
            let valid = match session::validate_id(id.as_str()) {
                Ok(()) => true,
                Err(_) => false,
            };
            if valid && text::has(&self.live, id.as_str()) {
                match reply {
                    SyncReply::Opened(s) => {
                        if text::same(s.id.as_str(), id.as_str()) {
                            registry.insert(s);
                            self.restored = self.restored + 1;
                        }
                    },
                    SyncReply::Failed(_) => {
                        self.restored = self.restored + 1;
                    },
                    _ => {},
                }
            } else {
                self.restored = self.restored + 1;
            }
        } else if self.seen < self.live.len() {
            let name = self.live[self.seen].clone();
            if registry.contains(name.as_str()) {
                self.seen = self.seen + 1;
                self.cwd = None;
                return ;
            }
            if self.cwd.is_none() {
                match reply {
                    SyncReply::Path(run) => {
                        let cwd = match tmux::pane_current_path(&run) {
                            Some(p) => p,
                            None => home::default_cwd(&self.home),
                        };
                        self.cwd = Some(cwd);
                    },
                    _ => {},
                }
                return ;
            }
            let valid = match session::validate_id(name.as_str()) {
                Ok(()) => true,
                Err(_) => false,
            };
            if valid {
                match reply {
                    SyncReply::Opened(s) => {
                        if text::same(s.id.as_str(), name.as_str()) {
                            registry.insert(s);
                            self.seen = self.seen + 1;
                            self.adopted = self.adopted + 1;
                            self.cwd = None;
                        }
                    },
                    SyncReply::Failed(_) => {
                        self.seen = self.seen + 1;
                        self.cwd = None;
                    },
                    _ => {},
                }
            } else {
                self.seen = self.seen + 1;
                self.cwd = None;
            }
        }
    }

    /// Whether something has changed.
    pub open spec fn changed(self) -> bool {
        self.dropped + self.adopted > 0
    }

    /// How many sessions were dropped or adopted.
    pub fn changes(&self) -> (r: usize)
        requires
            self.dropped + self.adopted <= usize::MAX,
        ensures
            r == self.dropped + self.adopted,
    {
        self.dropped + self.adopted
    }

    /// What has to be written down at the end of the run, if anything has.
    pub fn saving(&self, registry: &Registry) -> (r: Option<Saving>)
        ensures
            match r {
                Some(s) => (self.always_save || self.changed()) && registry.is_saving(s),
                None => !self.always_save && !self.changed(),
            },
    {
        if self.always_save || self.dropped > 0 || self.adopted > 0 {
            Some(registry.save_locked())
        } else {
            None
        }
    }
}

impl Registry {
    /// An empty registry, and a run that fills it: with the sessions that were written down and
    /// that tmux holds still, and with the others that tmux holds.
    pub fn load_or_init(
        meta_path: String,
        default_cmd: String,
        stored: Option<Vec<SessionMeta>>,
        live: Result<Vec<String>, Error>,
        home: Option<String>,
    ) -> (r: (Registry, Syncing))
        ensures
            r.0.wf(),
            r.0@ == Seq::<Session>::empty(),
            r.0.command() == default_cmd@,
            r.0.path() == meta_path@,
            r.1.wf(),
            r.1.fresh(),
            r.1.stored@ == (match stored {
                Some(metas) => metas@,
                None => Seq::<SessionMeta>::empty(),
            }),
            r.1.names() == known_live(live),
            r.1.home == home,
            r.1.always_save,
            r.1.dropped == 0,
    {
        let stored = match stored {
            Some(metas) => metas,
            None => Vec::new(),
        };
        let live = live_or_none(live);
        (
            Registry::new(meta_path, default_cmd),
            Syncing {
                stored,
                live,
                home,
                always_save: true,
                restored: 0,
                seen: 0,
                cwd: None,
                dropped: 0,
                adopted: 0,
            },
        )
    }

    /// Drops the sessions that tmux does not hold any more, and starts a run that adopts those
    /// which it holds and the registry does not know.
    pub fn refresh_from_tmux(
        &mut self,
        live: Result<Vec<String>, Error>,
        home: Option<String>,
    ) -> (r: Syncing)
        requires
            old(self).wf(),
        ensures
            final(self).wf(),
            final(self).same_but_sessions(*old(self)),
            final(self)@ == registry::those_in(old(self)@, known_live(live)),
            r.wf(),
            r.fresh(),
            r.stored@ == Seq::<SessionMeta>::empty(),
            r.names() == known_live(live),
            r.home == home,
            !r.always_save,
            r.dropped == old(self)@.len() - final(self)@.len(),
    {
        let live = live_or_none(live);
        let dropped = self.keep_only(&live);
        Syncing {
            stored: Vec::new(),
            live,
            home,
            always_save: false,
            restored: 0,
            seen: 0,
            cwd: None,
            dropped,
            adopted: 0,
        }
    }
}

// ---------------------------------------------------------------------------------------------
// Whole runs
// ---------------------------------------------------------------------------------------------

/// Whether a state of a run is followed by the next one, given what the run learned there.
pub open spec fn sync_step_at(
    runs: Seq<Syncing>,
    lists: Seq<Seq<Session>>,
    replies: Seq<SyncReply>,
    k: int,
) -> bool {
    runs[k].leads_to(lists[k], replies[k], runs[k + 1], lists[k + 1])
}

/// A run from its start: its states, the sessions in the registry at each of them, and what the
/// run learned there.
pub open spec fn is_sync_run(
    runs: Seq<Syncing>,
    lists: Seq<Seq<Session>>,
    replies: Seq<SyncReply>,
) -> bool {
    &&& runs.len() > 0
    &&& lists.len() == runs.len()
    &&& replies.len() == runs.len() - 1
    &&& runs[0].wf()
    &&& runs[0].fresh()
    &&& distinct_and_live(lists[0], runs[0].names())
    &&& forall|k: int|
        0 <= k < runs.len() - 1 ==> #[trigger] sync_step_at(runs, lists, replies, k)
}

/// Whether no two sessions have the same id, and tmux holds each of them.
pub open spec fn distinct_and_live(list: Seq<Session>, names: Seq<Seq<char>>) -> bool {
    &&& registry::distinct_ids(list)
    &&& forall|i: int| 0 <= i < list.len() ==> names.contains((#[trigger] list[i]).id@)
}

/// Whether it turned out, before the state `k` of a run, that the session with an id could not be
/// opened: its id is not allowed, or its opening failed.
pub open spec fn could_not_open(
    runs: Seq<Syncing>,
    replies: Seq<SyncReply>,
    k: int,
    id: Seq<char>,
) -> bool {
    exists|j: int|
        0 <= j < k && (#[trigger] runs[j]).adopting() && runs[j].name() == id && (
        !session::valid_id(id) || replies[j] is Failed)
}

proof fn lemma_with_session_live(list: Seq<Session>, s: Session, names: Seq<Seq<char>>)
    requires
        distinct_and_live(list, names),
        names.contains(s.id@),
    ensures
        distinct_and_live(registry::with_session(list, s), names),
{
    registry::inserted_is_found(list, s, s.id@);
    let r = registry::with_session(list, s);
    assert forall|i: int| 0 <= i < r.len() implies names.contains((#[trigger] r[i]).id@) by {
        if i < list.len() {
            assert(names.contains(list[i].id@));
        }
    }
}

proof fn lemma_sync_run(
    runs: Seq<Syncing>,
    lists: Seq<Seq<Session>>,
    replies: Seq<SyncReply>,
    k: int,
)
    requires
        is_sync_run(runs, lists, replies),
        0 <= k < runs.len(),
    ensures
        runs[k].wf(),
        runs[k].live == runs[0].live,
        runs[k].stored == runs[0].stored,
        runs[k].dropped == runs[0].dropped,
        distinct_and_live(lists[k], runs[0].names()),
        runs[k].restoring() ==> runs[k].seen == 0,
        forall|j: int|
            #![trigger runs[0].live@[j]]
            0 <= j < runs[k].seen ==> registry::has_id(lists[k], runs[0].live@[j]@)
                || could_not_open(runs, replies, k, runs[0].live@[j]@),
        runs[0].stored@.len() == 0 ==> {
            &&& lists[0].is_prefix_of(lists[k])
            &&& lists[k].len() == lists[0].len() + runs[k].adopted
        },
    decreases k,
{
    if k > 0 {
        let i = k - 1;
        lemma_sync_run(runs, lists, replies, i);
        assert(sync_step_at(runs, lists, replies, i));
        let a = runs[i];
        let names = runs[0].names();
        assert(a.names() == names);
        if a.adopting() {
            assert(names[a.seen as int] == a.name());
        }
        let put = lists[k] != lists[i];
        if put {
            let s = replies[i]->Opened_0;
            lemma_with_session_live(lists[i], s, names);
            if runs[0].stored@.len() == 0 {
                assert(lists[k] == lists[i].push(s));
                assert(lists[0] =~= lists[i].subrange(0, lists[0].len() as int));
                assert(lists[0] =~= lists[k].subrange(0, lists[0].len() as int));
            }
        }
        assert forall|j: int|
            #![trigger runs[0].live@[j]]
            0 <= j < runs[k].seen implies registry::has_id(lists[k], runs[0].live@[j]@)
            || could_not_open(runs, replies, k, runs[0].live@[j]@) by {
            let id = runs[0].live@[j]@;
            if j < a.seen {
                if registry::has_id(lists[i], id) {
                    if put {
                        registry::inserted_is_found(lists[i], replies[i]->Opened_0, id);
                    }
                } else {
                    let w = choose|w: int|
                        0 <= w < i && (#[trigger] runs[w]).adopting() && runs[w].name() == id && (
                        !session::valid_id(id) || replies[w] is Failed);
                    assert(runs[w].adopting());
                }
            } else {
                assert(j == a.seen);
                assert(a.adopting());
                assert(id == a.name());
                if put {
                    registry::inserted_is_found(lists[i], replies[i]->Opened_0, id);
                } else if !registry::has_id(lists[i], id) {
                    assert(runs[i].adopting() && runs[i].name() == id && (!session::valid_id(id)
                        || replies[i] is Failed));
                }
            }
        }
    } else {
        assert(lists[0] =~= lists[0].subrange(0, lists[0].len() as int));
    }
}

/// At the end of a run, and at each of its states, every session in the registry is one that tmux
/// holds, and no two of them have the same id.
pub proof fn only_live_sessions(
    runs: Seq<Syncing>,
    lists: Seq<Seq<Session>>,
    replies: Seq<SyncReply>,
    k: int,
)
    requires
        is_sync_run(runs, lists, replies),
        0 <= k < runs.len(),
    ensures
        distinct_and_live(lists[k], runs[0].names()),
{
    lemma_sync_run(runs, lists, replies, k);
}

/// At the end of a run, every session that tmux holds is in the registry, but for those that could
/// not be opened.
pub proof fn all_live_sessions(
    runs: Seq<Syncing>,
    lists: Seq<Seq<Session>>,
    replies: Seq<SyncReply>,
    id: Seq<char>,
)
    requires
        is_sync_run(runs, lists, replies),
        runs.last().over(),
        runs[0].names().contains(id),
    ensures
        registry::has_id(lists.last(), id) || could_not_open(
            runs,
            replies,
            runs.len() - 1,
            id,
        ),
{
    let last = runs.len() - 1;
    lemma_sync_run(runs, lists, replies, last);
    let j = choose|j: int| 0 <= j < runs[0].names().len() && runs[0].names()[j] == id;
    assert(runs[0].live@[j]@ == id);
    assert(runs[last].seen == runs[0].live@.len());
}

/// A run in which nothing is restored leaves the sessions that it starts with as they are, puts the
/// ones that it adopts behind them, and counts them.
pub proof fn known_sessions_stay(
    runs: Seq<Syncing>,
    lists: Seq<Seq<Session>>,
    replies: Seq<SyncReply>,
    k: int,
)
    requires
        is_sync_run(runs, lists, replies),
        runs[0].stored@.len() == 0,
        0 <= k < runs.len(),
    ensures
        lists[0].is_prefix_of(lists[k]),
        lists[k].len() == lists[0].len() + runs[k].adopted,
        runs[k].dropped == runs[0].dropped,
{
    lemma_sync_run(runs, lists, replies, k);
}

/// A run in which nothing is restored, and which starts with every session that tmux holds, changes
/// nothing.
pub proof fn nothing_new_nothing_changes(
    runs: Seq<Syncing>,
    lists: Seq<Seq<Session>>,
    replies: Seq<SyncReply>,
    k: int,
)
    requires
        is_sync_run(runs, lists, replies),
        runs[0].stored@.len() == 0,
        forall|i: int|
            0 <= i < runs[0].live@.len() ==> registry::has_id(
                lists[0],
                (#[trigger] runs[0].live@[i])@,
            ),
        0 <= k < runs.len(),
    ensures
        lists[k] == lists[0],
        runs[k].adopted == 0,
    decreases k,
{
    if k > 0 {
        let i = k - 1;
        nothing_new_nothing_changes(runs, lists, replies, i);
        lemma_sync_run(runs, lists, replies, i);
        assert(sync_step_at(runs, lists, replies, i));
        if runs[i].adopting() {
            assert(registry::has_id(lists[0], runs[0].live@[runs[i].seen as int]@));
        }
    }
}

proof fn lemma_restored_grows(
    runs: Seq<Syncing>,
    lists: Seq<Seq<Session>>,
    replies: Seq<SyncReply>,
    j: int,
    k: int,
)
    requires
        is_sync_run(runs, lists, replies),
        0 <= j <= k < runs.len(),
    ensures
        runs[j].restored <= runs[k].restored,
    decreases k,
{
    if j < k {
        lemma_restored_grows(runs, lists, replies, j, k - 1);
        lemma_sync_run(runs, lists, replies, k - 1);
        assert(sync_step_at(runs, lists, replies, k - 1));
    }
}

/// A session that was written down and could be opened again is in the registry from then on, as it
/// was opened, if each session was written down once.
pub proof fn restored_sessions_stay(
    runs: Seq<Syncing>,
    lists: Seq<Seq<Session>>,
    replies: Seq<SyncReply>,
    j: int,
    k: int,
    s: Session,
)
    requires
        is_sync_run(runs, lists, replies),
        registry::distinct_meta_ids(runs[0].stored@),
        0 <= j < k < runs.len(),
        runs[j].restoring(),
        runs[j].restorable(),
        replies[j] == SyncReply::Opened(s),
        s.id@ == runs[j].meta().id@,
    ensures
        registry::has_id(lists[k], s.id@),
        lists[k][registry::position_of(lists[k], s.id@)] == s,
    decreases k,
{
    let i = k - 1;
    lemma_sync_run(runs, lists, replies, j);
    lemma_sync_run(runs, lists, replies, i);
    assert(sync_step_at(runs, lists, replies, i));
    if i == j {
        registry::inserted_is_found(lists[i], s, s.id@);
    } else {
        restored_sessions_stay(runs, lists, replies, j, i, s);
        assert(sync_step_at(runs, lists, replies, j));
        lemma_restored_grows(runs, lists, replies, j + 1, i);
        if lists[k] != lists[i] {
            let other = replies[i]->Opened_0;
            if runs[i].restoring() {
                let a = runs[j].restored as int;
                let b = runs[i].restored as int;
                assert(runs[0].stored@[a].id@ != runs[0].stored@[b].id@);
            }
            assert(other.id@ != s.id@);
            registry::inserted_is_found(lists[i], other, s.id@);
        }
    }
}

/// Whether a reply to a run that asks for a session which was written down brings that session: it
/// could be opened, and it is the one that was asked for.
pub open spec fn opened_as_written(a: Syncing, reply: SyncReply) -> bool {
    reply matches SyncReply::Opened(s) && s.id@ == a.meta().id@ && s.cwd@ == a.meta().cwd@ && s.cmd@
        == a.meta().cmd@
}

proof fn lemma_passed(
    runs: Seq<Syncing>,
    lists: Seq<Seq<Session>>,
    replies: Seq<SyncReply>,
    p: int,
    k: int,
) -> (j: int)
    requires
        is_sync_run(runs, lists, replies),
        0 <= k < runs.len(),
        0 <= p < runs[k].restored,
    ensures
        0 <= j < k,
        runs[j].restored == p,
        runs[j].restoring(),
        runs[j + 1].restored == p + 1,
    decreases k,
{
    let i = k - 1;
    lemma_sync_run(runs, lists, replies, k);
    if k > 0 {
        lemma_sync_run(runs, lists, replies, i);
        assert(sync_step_at(runs, lists, replies, i));
        if p < runs[i].restored {
            lemma_passed(runs, lists, replies, p, i)
        } else {
            i
        }
    } else {
        0
    }
}

/// Sessions live on when disbot is started anew: one that was written down, and that tmux holds
/// still, is in the registry at the end of the run that reads what was written down, with its
/// directory and its command, if it could be opened again.
pub proof fn sessions_live_on(
    list: Seq<Session>,
    s: Session,
    runs: Seq<Syncing>,
    lists: Seq<Seq<Session>>,
    replies: Seq<SyncReply>,
)
    requires
        registry::distinct_ids(list),
        registry::real_sessions(list),
        list.contains(s),
        is_sync_run(runs, lists, replies),
        runs[0].stored@ == registry::by_age(registry::metas_of(list)),
        runs[0].names().contains(s.id@),
        runs.last().over(),
        forall|k: int|
            0 <= k < replies.len() && (#[trigger] runs[k]).restoring() && runs[k].meta().id@ == s.id@
                ==> opened_as_written(runs[k], replies[k]),
    ensures
        registry::has_id(lists.last(), s.id@),
        ({
            let again = lists.last()[registry::position_of(lists.last(), s.id@)];
            again.id@ == s.id@ && again.cwd@ == s.cwd@ && again.cmd@ == s.cmd@
        }),
{
    let last = runs.len() - 1;
    let stored = runs[0].stored@;
    registry::written_down_faithfully(list);
    assert(stored.contains(registry::meta_of(s)));
    let p = choose|p: int| 0 <= p < stored.len() && stored[p] == registry::meta_of(s);
    lemma_sync_run(runs, lists, replies, last);
    let j = lemma_passed(runs, lists, replies, p, last);
    lemma_sync_run(runs, lists, replies, j);
    assert(runs[j].meta() == registry::meta_of(s));
    assert(runs[j].restorable());
    assert(sync_step_at(runs, lists, replies, j));
    assert(opened_as_written(runs[j], replies[j]));
    restored_sessions_stay(runs, lists, replies, j, last, replies[j]->Opened_0);
}

/// What is left of the registry when the sessions that tmux has lost are dropped is what a run can
/// start with, and a run can start with nothing.
pub proof fn refresh_can_start(before: Seq<Session>, names: Seq<Seq<char>>)
    requires
        registry::distinct_ids(before),
    ensures
        distinct_and_live(registry::those_in(before, names), names),
        distinct_and_live(Seq::<Session>::empty(), names),
{
    let r = registry::those_in(before, names);
    registry::lemma_those_in(before, names);
    assert forall|i: int| 0 <= i < r.len() implies names.contains((#[trigger] r[i]).id@) by {
        assert(r.contains(r[i]));
    }
}

/// Whether a reply is one to what a run asks for.
pub open spec fn sync_answers(a: SyncAction, reply: SyncReply) -> bool {
    match a {
        SyncAction::GoOn => true,
        SyncAction::AskPath(_) => reply is Path,
        SyncAction::Open(o) => reply is Failed || (reply matches SyncReply::Opened(s) && s.id@
            == o.id@),
        SyncAction::Done => false,
    }
}

/// How much of a run lies ahead.
pub open spec fn ahead(s: Syncing) -> int {
    2 * (s.stored@.len() - s.restored) + 2 * (s.live@.len() - s.seen) - if s.cwd is Some {
        1int
    } else {
        0
    }
}

/// A run that gets answers comes to its end.
pub proof fn runs_end(
    a: Syncing,
    before: Seq<Session>,
    cmd: Seq<char>,
    asked: SyncAction,
    reply: SyncReply,
    next: Syncing,
    after: Seq<Session>,
)
    requires
        a.wf(),
        a.asks_for(before, cmd, asked),
        sync_answers(asked, reply),
        a.leads_to(before, reply, next, after),
        a.cwd is Some ==> a.adopting(),
    ensures
        0 <= ahead(next) < ahead(a),
        next.cwd is Some ==> next.adopting(),
{
}

// ---------------------------------------------------------------------------------------------
// What is opened, and where
// ---------------------------------------------------------------------------------------------

/// A session that is adopted is opened in the directory that tmux says it is in, whatever the run is
/// for, under its own id and with the command for sessions that are adopted.
pub proof fn adopted_where_tmux_says(
    a: Syncing,
    before: Seq<Session>,
    out: tmux::Output,
    space: (Seq<char>, Seq<char>),
    dir: Seq<char>,
    next: Syncing,
    after: Seq<Session>,
    cmd: Seq<char>,
    asked: SyncAction,
)
    requires
        a.wf(),
        a.restored == a.stored.len(),
        a.seen < a.live.len(),
        a.cwd is None,
        session::valid_id(a.live@[a.seen as int]@),
        forall|i: int|
            0 <= i < before.len() ==> (#[trigger] before[i]).id@ != a.live@[a.seen as int]@,
        out.success,
        tmux::lossy_text(out.stdout@) == space.0 + dir + space.1,
        forall|i: int| 0 <= i < space.0.len() ==> text::is_white_space(#[trigger] space.0[i]),
        forall|i: int| 0 <= i < space.1.len() ==> text::is_white_space(#[trigger] space.1[i]),
        dir.len() > 0,
        !text::is_white_space(dir[0]),
        !text::is_white_space(dir[dir.len() - 1]),
        a.leads_to(before, SyncReply::Path(Ok(out)), next, after),
        next.asks_for(after, cmd, asked),
    ensures
        after == before,
        asked matches SyncAction::Open(o) && o.cwd@ == dir && o.id@ == a.live@[a.seen as int]@
            && o.cmd@ == cmd && o.cols == 120 && o.rows == 40,
{
    tmux::paths_are_read(space.0, dir, space.1, out);
}

/// Where tmux does not say which directory a session is in, the session is adopted in the home
/// directory, or in the root if there is none.
pub proof fn adopted_at_home_otherwise(
    a: Syncing,
    before: Seq<Session>,
    run: Run,
    next: Syncing,
    after: Seq<Session>,
    cmd: Seq<char>,
    asked: SyncAction,
)
    requires
        a.wf(),
        a.restored == a.stored.len(),
        a.seen < a.live.len(),
        a.cwd is None,
        session::valid_id(a.live@[a.seen as int]@),
        forall|i: int|
            0 <= i < before.len() ==> (#[trigger] before[i]).id@ != a.live@[a.seen as int]@,
        match run {
            Ok(out) => !out.success || forall|i: int|
                0 <= i < tmux::lossy_text(out.stdout@).len() ==> text::is_white_space(
                    #[trigger] tmux::lossy_text(out.stdout@)[i],
                ),
            Err(_) => true,
        },
        a.leads_to(before, SyncReply::Path(run), next, after),
        next.asks_for(after, cmd, asked),
    ensures
        after == before,
        asked matches SyncAction::Open(o) && o.id@ == a.live@[a.seen as int]@ && o.cmd@ == cmd
            && o.cwd@ == match a.home {
            Some(h) => h@,
            None => "/"@,
        },
{
    tmux::only_success_counts(run);
    match run {
        Ok(out) => {
            text::blank_is_all_space(tmux::lossy_text(out.stdout@));
        },
        Err(_) => {},
    }
}

/// A session that was written down is opened again as it was written down if tmux holds it, and is
/// passed over if not.
pub proof fn restored_as_written(
    a: Syncing,
    before: Seq<Session>,
    cmd: Seq<char>,
    asked: SyncAction,
    reply: SyncReply,
    next: Syncing,
    after: Seq<Session>,
)
    requires
        a.wf(),
        a.restored < a.stored.len(),
        a.asks_for(before, cmd, asked),
        a.leads_to(before, reply, next, after),
    ensures
        ({
            let m = a.stored@[a.restored as int];
            let held = exists|i: int| 0 <= i < a.live@.len() && (#[trigger] a.live@[i])@ == m.id@;
            if held && session::valid_id(m.id@) {
                asked matches SyncAction::Open(o) && o.id@ == m.id@ && o.cwd@ == m.cwd@ && o.cmd@
                    == m.cmd@ && o.cols == 120 && o.rows == 40
            } else {
                asked is GoOn && after == before && next.restored == a.restored + 1
            }
        }),
        next.stored == a.stored,
        next.live == a.live,
        next.home == a.home,
        next.seen == a.seen,
        next.adopted == a.adopted,
        next.dropped == a.dropped,
        next.always_save == a.always_save,
{
    let m = a.stored@[a.restored as int];
    let names = a.names();
    if names.contains(m.id@) {
        let i = choose|i: int| 0 <= i < names.len() && names[i] == m.id@;
        assert(a.live@[i]@ == m.id@);
    }
    if exists|i: int| 0 <= i < a.live@.len() && (#[trigger] a.live@[i])@ == m.id@ {
        let i = choose|i: int| 0 <= i < a.live@.len() && (#[trigger] a.live@[i])@ == m.id@;
        assert(names[i] == m.id@);
    }
}

/// A session is adopted only if it is not known yet; one that is known is passed over.
pub proof fn adopted_if_unknown(
    a: Syncing,
    before: Seq<Session>,
    cmd: Seq<char>,
    asked: SyncAction,
    reply: SyncReply,
    next: Syncing,
    after: Seq<Session>,
)
    requires
        a.wf(),
        a.restored == a.stored.len(),
        a.asks_for(before, cmd, asked),
        a.leads_to(before, reply, next, after),
    ensures
        asked is Done <==> a.seen == a.live.len(),
        a.seen == a.live.len() ==> next == a && after == before,
        a.seen < a.live.len() ==> {
            let name = a.live@[a.seen as int]@;
            let known = exists|i: int| 0 <= i < before.len() && (#[trigger] before[i]).id@ == name;
            &&& known ==> asked is GoOn && after == before && next.seen == a.seen + 1
                && next.adopted == a.adopted
            &&& !known && a.cwd is None ==> (asked matches SyncAction::AskPath(args) && text::texts(
                args@,
            ) == seq![
                "display-message"@,
                "-p"@,
                "-t"@,
                "disbot-"@ + name,
                "#{pane_current_path}"@,
            ])
            &&& !known && a.cwd is Some && session::valid_id(name) ==> (
            asked matches SyncAction::Open(o) && o.id@ == name && o.cwd@ == a.cwd->0@ && o.cmd@
                == cmd)
        },
{
}

/// A session that was opened is in the registry under its id, the others are as they were, and an
/// adopted one is counted. If it could not be opened, the registry stays as it is, nothing is
/// counted, and the run goes on.
pub proof fn opened_is_taken_in(
    a: Syncing,
    before: Seq<Session>,
    cmd: Seq<char>,
    o: Opening,
    reply: SyncReply,
    next: Syncing,
    after: Seq<Session>,
    id: Seq<char>,
)
    requires
        a.wf(),
        registry::distinct_ids(before),
        a.asks_for(before, cmd, SyncAction::Open(o)),
        sync_answers(SyncAction::Open(o), reply),
        a.leads_to(before, reply, next, after),
    ensures
        next.restored + next.seen == a.restored + a.seen + 1,
        match reply {
            SyncReply::Opened(s) => {
                &&& after.contains(s)
                &&& registry::has_id(after, id) <==> registry::has_id(before, id) || id == s.id@
                &&& next.adopted == a.adopted + if a.restored == a.stored.len() {
                    1int
                } else {
                    0
                }
            },
            _ => after == before && next.adopted == a.adopted,
        },
{
    match reply {
        SyncReply::Opened(s) => {
            registry::inserted_is_found(before, s, id);
            registry::inserted_is_found(before, s, s.id@);
            let p = registry::position_of(after, s.id@);
            assert(after[p].id@ == s.id@);
            assert(after[p] == s);
        },
        _ => {},
    }
}

proof fn lemma_all_kept(list: Seq<Session>, names: Seq<Seq<char>>)
    ensures
        registry::those_in(list, names).len() <= list.len(),
        registry::those_in(list, names).len() == list.len() ==> registry::those_in(list, names)
            == list,
    decreases list.len(),
{
    reveal(Seq::filter);
    if list.len() > 0 {
        lemma_all_kept(list.drop_last(), names);
        assert(list =~= list.drop_last().push(list.last()));
    }
}

/// A refresh that is over has something to write down exactly if it leaves other sessions than it
/// found.
pub proof fn refresh_tells_changes(
    found: Seq<Session>,
    runs: Seq<Syncing>,
    lists: Seq<Seq<Session>>,
    replies: Seq<SyncReply>,
)
    requires
        registry::distinct_ids(found),
        is_sync_run(runs, lists, replies),
        runs[0].stored@.len() == 0,
        lists[0] == registry::those_in(found, runs[0].names()),
        runs[0].dropped == found.len() - lists[0].len(),
    ensures
        runs.last().changed() <==> lists.last() != found,
        runs.last().dropped + lists.last().len() == found.len() + runs.last().adopted,
{
    let last = runs.len() - 1;
    let names = runs[0].names();
    known_sessions_stay(runs, lists, replies, last);
    only_live_sessions(runs, lists, replies, last);
    lemma_all_kept(found, names);
    assert(lists[0] =~= lists[last].subrange(0, lists[0].len() as int));
    if runs[last].dropped > 0 {
        if lists[last] == found {
            registry::none_lost_none_dropped(found, names);
        }
    } else if runs[last].adopted == 0 {
        assert(lists[last] =~= lists[0]);
    }
}

/// A run keeps what it started with: what was written down, what tmux holds, the home directory, how
/// many sessions were dropped, and whether it writes down at its end in any case. What it has dealt
/// with only grows.
pub proof fn runs_keep_what_they_start_with(
    a: Syncing,
    before: Seq<Session>,
    reply: SyncReply,
    next: Syncing,
    after: Seq<Session>,
)
    requires
        a.wf(),
        a.leads_to(before, reply, next, after),
    ensures
        next.stored == a.stored,
        next.live == a.live,
        next.home == a.home,
        next.always_save == a.always_save,
        next.dropped == a.dropped,
        a.restored <= next.restored <= a.restored + 1,
        a.seen <= next.seen <= a.seen + 1,
        a.adopted <= next.adopted <= a.adopted + 1,
        next.seen > a.seen ==> next.cwd is None && a.restored == a.stored.len(),
        after != before ==> (reply matches SyncReply::Opened(s) && after.contains(s)),
{
    if after != before {
        let s = reply->Opened_0;
        if registry::has_id(before, s.id@) {
            let p = registry::position_of(before, s.id@);
            assert(before[p].id@ == s.id@);
            assert(after[p] == s);
        } else {
            assert(after[before.len() as int] == s);
        }
    }
}

/// What tmux is known to hold is what it told, in that order; nothing, if it could not be asked.
pub proof fn what_tmux_told_is_known(names: Vec<String>, e: Error, i: int)
    requires
        0 <= i < names@.len(),
    ensures
        known_live(Ok(names)).len() == names@.len(),
        known_live(Ok(names))[i] == names@[i]@,
        known_live(Err(e)).len() == 0,
{
}

} // verus!
