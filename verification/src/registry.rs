//! The registry: the sessions that are known, each under its id.

use vstd::prelude::*;
use crate::error::Error;
use crate::session;
use crate::session::{Ending, Opening, Session};
use crate::text;
use crate::tmux;

verus! {

/// What is written down of a session.
#[derive(Debug)]
pub struct SessionMeta {
    pub id: String,
    pub cwd: String,
    pub cmd: String,
    pub created_at: u64,
}

impl Clone for SessionMeta {
    fn clone(&self) -> (r: SessionMeta)
        ensures
            r == *self,
    {
        SessionMeta {
            id: self.id.clone(),
            cwd: self.cwd.clone(),
            cmd: self.cmd.clone(),
            created_at: self.created_at,
        }
    }
}

/// What is written down of a session.
pub open spec fn meta_of(s: Session) -> SessionMeta {
    SessionMeta { id: s.id, cwd: s.cwd, cmd: s.cmd, created_at: s.created_at }
}

/// What is written down of each of a list of sessions.
pub open spec fn metas_of(list: Seq<Session>) -> Seq<SessionMeta> {
    Seq::new(list.len(), |i: int| meta_of(list[i]))
}

impl SessionMeta {
    /// What is written down of a session.
    pub fn from_session(s: &Session) -> (r: SessionMeta)
        ensures
            r == meta_of(*s),
    {
        SessionMeta {
            id: s.id.clone(),
            cwd: s.cwd.clone(),
            cmd: s.cmd.clone(),
            created_at: s.created_at,
        }
    }
}

// ---------------------------------------------------------------------------------------------
// By age
// ---------------------------------------------------------------------------------------------

/// How many sessions at the front of a list were created at the time `t` or before.
pub open spec fn count_older(list: Seq<SessionMeta>, t: u64) -> nat
    decreases list.len(),
{
    if list.len() == 0 || list[0].created_at > t {
        0
    } else {
        1 + count_older(list.drop_first(), t)
    }
}

/// A list of sessions in the order of their creation. Of those created at the same time, the one
/// that comes first in the list stays first.
pub open spec fn by_age(list: Seq<SessionMeta>) -> Seq<SessionMeta>
    decreases list.len(),
{
    if list.len() == 0 {
        list
    } else {
        let before = by_age(list.drop_last());
        before.insert(count_older(before, list.last().created_at) as int, list.last())
    }
}

/// Whether a list of sessions is in the order of their creation.
pub open spec fn is_by_age(list: Seq<SessionMeta>) -> bool {
    forall|i: int, j: int|
        0 <= i <= j < list.len() ==> (#[trigger] list[i]).created_at <= (
        #[trigger] list[j]).created_at
}

proof fn lemma_count_older(list: Seq<SessionMeta>, t: u64)
    ensures
        count_older(list, t) <= list.len(),
        forall|i: int|
            0 <= i < count_older(list, t) ==> (#[trigger] list[i]).created_at <= t,
        count_older(list, t) < list.len() ==> list[count_older(list, t) as int].created_at > t,
    decreases list.len(),
{
    if list.len() > 0 && list[0].created_at <= t {
        let d = list.drop_first();
        lemma_count_older(d, t);
        assert forall|i: int| 0 <= i < count_older(list, t) implies (
        #[trigger] list[i]).created_at <= t by {
            if i > 0 {
                assert(list[i] == d[i - 1]);
            }
        }
    }
}

/// A list of sessions by age holds the same sessions, each as often, the older ones before the
/// younger ones.
pub proof fn by_age_sorts(list: Seq<SessionMeta>)
    ensures
        is_by_age(by_age(list)),
        by_age(list).len() == list.len(),
        by_age(list).to_multiset() == list.to_multiset(),
    decreases list.len(),
{
    if list.len() > 0 {
        let m = list.last();
        let before = by_age(list.drop_last());
        let k = count_older(before, m.created_at) as int;
        by_age_sorts(list.drop_last());
        lemma_count_older(before, m.created_at);
        let r = before.insert(k, m);
        assert forall|i: int, j: int| 0 <= i <= j < r.len() implies (#[trigger] r[i]).created_at
            <= (#[trigger] r[j]).created_at by {
            if i < k && j > k {
                assert(before[i].created_at <= before[j - 1].created_at);
            }
            if i == k && j > k {
                assert(before[k].created_at <= before[j - 1].created_at);
            }
        }
        assert(r.remove(k) =~= before);
        assert(list =~= list.drop_last().push(m));
        broadcast use vstd::seq_lib::group_to_multiset_ensures;
        broadcast use vstd::multiset::group_multiset_axioms;
        assert(r.contains(m)) by {
            assert(r[k] == m);
        }
        assert(r.to_multiset().remove(m) =~= before.to_multiset());
        assert(r.to_multiset() =~= before.to_multiset().insert(m));
    }
}

/// Whether no two of the sessions that were written down have the same id.
pub open spec fn distinct_meta_ids(list: Seq<SessionMeta>) -> bool {
    forall|i: int, j: int|
        0 <= i < j < list.len() ==> (#[trigger] list[i]).id@ != (#[trigger] list[j]).id@
}

/// What is written down of the sessions has an id for each of them, as they have, and holds what is
/// known of each of them.
pub proof fn written_down_faithfully(list: Seq<Session>)
    requires
        distinct_ids(list),
    ensures
        distinct_meta_ids(by_age(metas_of(list))),
        forall|s: Session| #[trigger]
            list.contains(s) ==> by_age(metas_of(list)).contains(meta_of(s)),
{
    let metas = metas_of(list);
    assert forall|i: int, j: int| 0 <= i < j < metas.len() implies (#[trigger] metas[i]).id@ != (
    #[trigger] metas[j]).id@ by {
        assert(list[i].id@ != list[j].id@);
    }
    lemma_by_age_distinct(metas);
    by_age_sorts(metas);
    assert forall|s: Session| #[trigger] list.contains(s) implies by_age(metas).contains(
        meta_of(s),
    ) by {
        let i = choose|i: int| 0 <= i < list.len() && list[i] == s;
        assert(metas[i] == meta_of(s));
        broadcast use vstd::seq_lib::group_to_multiset_ensures;
        assert(metas.contains(meta_of(s)));
        assert(by_age(metas).to_multiset().count(meta_of(s)) > 0);
    }
}

proof fn lemma_by_age_distinct(list: Seq<SessionMeta>)
    requires
        distinct_meta_ids(list),
    ensures
        distinct_meta_ids(by_age(list)),
        forall|m: SessionMeta| #[trigger] by_age(list).contains(m) ==> list.contains(m),
    decreases list.len(),
{
    if list.len() > 0 {
        let m = list.last();
        let front = list.drop_last();
        let before = by_age(front);
        assert(distinct_meta_ids(front)) by {
            assert forall|i: int, j: int| 0 <= i < j < front.len() implies (
            #[trigger] front[i]).id@ != (#[trigger] front[j]).id@ by {
                assert(list[i].id@ != list[j].id@);
            }
        }
        lemma_by_age_distinct(front);
        lemma_count_older(before, m.created_at);
        let k = count_older(before, m.created_at) as int;
        let r = before.insert(k, m);
        assert forall|i: int| 0 <= i < before.len() implies (#[trigger] before[i]).id@ != m.id@ by {
            assert(before.contains(before[i]));
            let q = choose|q: int| 0 <= q < front.len() && front[q] == before[i];
            assert(list[q].id@ != list[list.len() - 1].id@);
        }
        assert forall|x: SessionMeta| #[trigger] r.contains(x) implies list.contains(x) by {
            let q = choose|q: int| 0 <= q < r.len() && r[q] == x;
            if q == k {
                assert(list[list.len() - 1] == x);
            } else {
                let o = if q < k {
                    q
                } else {
                    q - 1
                };
                assert(before[o] == x);
                assert(before.contains(x));
                let z = choose|z: int| 0 <= z < front.len() && front[z] == x;
                assert(list[z] == x);
            }
        }
        assert forall|i: int, j: int| 0 <= i < j < r.len() implies (#[trigger] r[i]).id@ != (
        #[trigger] r[j]).id@ by {
            let a = if i < k {
                i
            } else {
                i - 1
            };
            let b = if j < k {
                j
            } else {
                j - 1
            };
            if i != k {
                assert(r[i] == before[a]);
            }
            if j != k {
                assert(r[j] == before[b]);
            }
        }
    }
}

/// Puts `m` into a list by age where its own age belongs.
fn insert_by_age(list: &mut Vec<SessionMeta>, m: SessionMeta)
    ensures
        final(list)@ == old(list)@.insert(
            count_older(old(list)@, m.created_at) as int,
            m,
        ),
{
    let mut k: usize = 0;
    assert(list@.skip(0) =~= list@);
    while k < list.len() && list[k].created_at <= m.created_at
        invariant
            k <= list@.len(),
            list@ == old(list)@,
            count_older(list@, m.created_at) == k + count_older(list@.skip(k as int), m.created_at),
        decreases list@.len() - k,
    {
        proof {
            assert(list@.skip(k as int).drop_first() =~= list@.skip(k + 1));
        }
        k += 1;
    }
    list.insert(k, m);
}

// ---------------------------------------------------------------------------------------------
// The registry
// ---------------------------------------------------------------------------------------------

/// Whether there is a session with an id in a list.
pub open spec fn has_id(list: Seq<Session>, id: Seq<char>) -> bool {
    exists|i: int| 0 <= i < list.len() && (#[trigger] list[i]).id@ == id
}

/// Where the session with an id is in a list.
pub open spec fn position_of(list: Seq<Session>, id: Seq<char>) -> int
    recommends
        has_id(list, id),
{
    choose|i: int| 0 <= i < list.len() && (#[trigger] list[i]).id@ == id
}

/// Whether no two sessions of a list have the same id.
pub open spec fn distinct_ids(list: Seq<Session>) -> bool {
    forall|i: int, j: int|
        0 <= i < j < list.len() ==> (#[trigger] list[i]).id@ != (#[trigger] list[j]).id@
}

/// Whether every session of a list has an id that is allowed, and the name in tmux that comes from
/// the id.
pub open spec fn real_sessions(list: Seq<Session>) -> bool {
    forall|i: int| 0 <= i < list.len() ==> (#[trigger] list[i]).wf()
}

/// A list of sessions with `s` in it, in place of the one with the same id if there is one.
pub open spec fn with_session(list: Seq<Session>, s: Session) -> Seq<Session> {
    if has_id(list, s.id@) {
        list.update(position_of(list, s.id@), s)
    } else {
        list.push(s)
    }
}

/// In words, why a session with an id is not created, if it is refused at once.
pub open spec fn create_refusal(list: Seq<Session>, id: Seq<char>) -> Option<Seq<char>> {
    if has_id(list, id) {
        Some("session '"@ + id + "' already exists"@)
    } else if !session::id_length_ok(id) {
        Some("id length must be 1..=64"@)
    } else if !session::id_chars_ok(id) {
        Some("id may only contain a-z, 0-9, '-', '_'"@)
    } else {
        None
    }
}

/// Those of the sessions of a list whose ids are among `names`.
pub open spec fn those_in(list: Seq<Session>, names: Seq<Seq<char>>) -> Seq<Session> {
    list.filter(|s: Session| names.contains(s.id@))
}

/// Of the sessions of a list, those whose ids are among some names are kept as they are, and no
/// others.
pub proof fn lemma_those_in(list: Seq<Session>, names: Seq<Seq<char>>)
    ensures
        distinct_ids(list) ==> distinct_ids(those_in(list, names)),
        forall|s: Session|
            #![trigger those_in(list, names).contains(s)]
            those_in(list, names).contains(s) <==> list.contains(s) && names.contains(s.id@),
    decreases list.len(),
{
    reveal(Seq::filter);
    if list.len() > 0 {
        let before = list.drop_last();
        let last = list.last();
        lemma_those_in(before, names);
        assert(list =~= before.push(last));
        assert forall|s: Session|
            #![trigger those_in(list, names).contains(s)]
            those_in(list, names).contains(s) <==> list.contains(s) && names.contains(s.id@) by {
            text::lemma_contains_push(before, last, s);
            if names.contains(last.id@) {
                text::lemma_contains_push(those_in(before, names), last, s);
            }
            assert(those_in(before, names).contains(s) <==> before.contains(s) && names.contains(
                s.id@,
            ));
        }
        if distinct_ids(list) && names.contains(last.id@) {
            let r = those_in(before, names);
            assert(distinct_ids(before));
            assert forall|i: int| 0 <= i < r.len() implies (#[trigger] r[i]).id@ != last.id@ by {
                assert(r.contains(r[i]));
                let k = choose|k: int| 0 <= k < before.len() && before[k] == r[i];
                assert(list[k] == r[i]);
            }
        }
    } else {
        assert(those_in(list, names) =~= list);
    }
}

/// If the ids of all sessions of a list are among some names, all of them are kept.
pub proof fn none_lost_none_dropped(list: Seq<Session>, names: Seq<Seq<char>>)
    requires
        forall|i: int| 0 <= i < list.len() ==> names.contains((#[trigger] list[i]).id@),
    ensures
        those_in(list, names) == list,
    decreases list.len(),
{
    reveal(Seq::filter);
    if list.len() > 0 {
        let before = list.drop_last();
        assert forall|i: int| 0 <= i < before.len() implies names.contains(
            (#[trigger] before[i]).id@,
        ) by {
            assert(names.contains(list[i].id@));
        }
        none_lost_none_dropped(before, names);
        assert(names.contains(list[list.len() - 1].id@));
        assert(list =~= before.push(list.last()));
    } else {
        assert(those_in(list, names) =~= list);
    }
}

/// What is to be written down of the sessions, and the file that it goes to.
#[derive(Debug)]
pub struct Saving {
    pub path: String,
    pub metas: Vec<SessionMeta>,
}

/// What is to be done once a session was taken out: it is ended, and the others are written down.
#[derive(Debug)]
pub struct Deletion {
    pub ending: Ending,
    pub saving: Saving,
}

/// The sessions that are known, each under its id.
#[derive(Debug)]
pub struct Registry {
    sessions: Vec<Session>,
    meta_path: String,
    default_cmd: String,
}

impl View for Registry {
    type V = Seq<Session>;

    closed spec fn view(&self) -> Seq<Session> {
        self.sessions@
    }
}

impl Registry {
    /// The command that a session runs when none is asked for.
    pub closed spec fn command(self) -> Seq<char> {
        self.default_cmd@
    }

    /// The file that the sessions are written down in.
    pub closed spec fn path(self) -> Seq<char> {
        self.meta_path@
    }

    /// Whether two registries differ in nothing but their sessions.
    pub open spec fn same_but_sessions(self, other: Registry) -> bool {
        self.command() == other.command() && self.path() == other.path()
    }

    /// No two sessions have the same id, and each of them has the name in tmux that its id, which
    /// is allowed, gives it.
    pub open spec fn wf(self) -> bool {
        distinct_ids(self@) && real_sessions(self@)
    }

    /// Whether `s` is what has to be written down of the sessions.
    pub open spec fn is_saving(self, s: Saving) -> bool {
        s.path@ == self.path() && s.metas@ == by_age(metas_of(self@))
    }

    /// A registry that holds no session.
    pub fn new(meta_path: String, default_cmd: String) -> (r: Registry)
        ensures
            r.wf(),
            r@ == Seq::<Session>::empty(),
            r.command() == default_cmd@,
            r.path() == meta_path@,
    {
        Registry { sessions: Vec::new(), meta_path, default_cmd }
    }

    /// The command that a session runs when none is asked for.
    pub fn default_cmd(&self) -> (r: &str)
        ensures
            r@ == self.command(),
    {
        self.default_cmd.as_str()
    }

    /// What is written down of the sessions, in the order of their creation.
    pub fn list(&self) -> (r: Vec<SessionMeta>)
        ensures
            r@ == by_age(metas_of(self@)),
    {
        let ghost all = metas_of(self@);
        let mut r: Vec<SessionMeta> = Vec::new();
        let mut i: usize = 0;
        assert(all.take(0) =~= Seq::<SessionMeta>::empty());
        while i < self.sessions.len()
            invariant
                i <= self.sessions@.len(),
                all == metas_of(self@),
                r@ == by_age(all.take(i as int)),
            decreases self.sessions@.len() - i,
        {
            let m = SessionMeta::from_session(&self.sessions[i]);
            proof {
                assert(all.take(i + 1).drop_last() =~= all.take(i as int));
                assert(all.take(i + 1).last() == m);
            }
            insert_by_age(&mut r, m);
            i += 1;
        }
        assert(all.take(i as int) =~= all);
        r
    }

    /// What has to be written down of the sessions, in the order of their creation.
    pub fn save_locked(&self) -> (r: Saving)
        ensures
            self.is_saving(r),
    {
        Saving { path: self.meta_path.clone(), metas: self.list() }
    }

    fn find(&self, id: &str) -> (r: Option<usize>)
        ensures
            match r {
                Some(i) => i < self@.len() && self@[i as int].id@ == id@,
                None => !has_id(self@, id@),
            },
    {
        let mut i: usize = 0;
        while i < self.sessions.len()
            invariant
                i <= self.sessions@.len(),
                forall|j: int| 0 <= j < i ==> (#[trigger] self.sessions@[j]).id@ != id@,
            decreases self.sessions@.len() - i,
        {
            if text::same(self.sessions[i].id.as_str(), id) {
                return Some(i);
            }
            i += 1;
        }
        None
    }

    /// Whether there is a session with an id.
    pub fn contains(&self, id: &str) -> (r: bool)
        ensures
            r == has_id(self@, id@),
    {
        match self.find(id) {
            Some(i) => {
                assert(self@[i as int].id@ == id@);
                true
            },
            None => false,
        }
    }

    /// The session with an id, if there is one.
    pub fn get(&self, id: &str) -> (r: Option<&Session>)
        ensures
            match r {
                Some(s) => s.id@ == id@ && self@.contains(*s) && (self.wf() ==> s.wf() && *s
                    == self@[position_of(self@, id@)]),
                None => !has_id(self@, id@),
            },
    {
        match self.find(id) {
            Some(i) => {
                proof {
                    let p = position_of(self@, id@);
                    assert(self@[i as int].id@ == id@);
                    assert(self@[p].id@ == id@);
                }
                Some(&self.sessions[i])
            },
            None => None,
        }
    }

    /// Starts to create a session. It is refused if there is one with its id, or if the id is not
    /// allowed.
    pub fn create(&self, id: String, cwd: String, cmd: String, cols: u16, rows: u16) -> (r: Result<
        Opening,
        Error,
    >)
        ensures
            match r {
                Ok(o) => !has_id(self@, id@) && session::valid_id(id@) && o.starts(
                    id@,
                    cwd@,
                    cmd@,
                    cols,
                    rows,
                ),
                Err(Error::AlreadyExists(taken)) => has_id(self@, id@) && taken == id,
                Err(Error::IdLength) => !has_id(self@, id@) && !session::id_length_ok(id@),
                Err(Error::IdCharacters) => !has_id(self@, id@) && session::id_length_ok(id@)
                    && !session::id_chars_ok(id@),
                Err(_) => false,
            },
            match r {
                Ok(_) => create_refusal(self@, id@) is None,
                Err(e) => create_refusal(self@, id@) == Some(e.text()),
            },
    {
        if self.contains(id.as_str()) {
            return Err(Error::AlreadyExists(id));
        }
        Session::open(id, cwd, cmd, cols, rows)
    }

    /// Puts a session in, in place of the one with the same id if there is one.
    pub(crate) fn insert(&mut self, s: Session)
        requires
            old(self).wf(),
            s.wf(),
        ensures
            final(self).wf(),
            final(self)@ == with_session(old(self)@, s),
            final(self).same_but_sessions(*old(self)),
    {
        match self.find(s.id.as_str()) {
            Some(i) => {
                proof {
                    let p = position_of(self@, s.id@);
                    assert(self@[i as int].id@ == s.id@);
                    assert(self@[p].id@ == s.id@);
                    assert(p == i);
                }
                self.sessions.set(i, s);
            },
            None => {
                self.sessions.push(s);
            },
        }
    }

    /// Drops the sessions whose ids are not in a list, and tells how many there were.
    pub(crate) fn keep_only(&mut self, live: &Vec<String>) -> (r: usize)
        requires
            old(self).wf(),
        ensures
            final(self).wf(),
            final(self)@ == those_in(old(self)@, text::texts(live@)),
            final(self).same_but_sessions(*old(self)),
            r == old(self)@.len() - final(self)@.len(),
    {
        let ghost all = self@;
        let ghost names = text::texts(live@);
        let mut kept: Vec<Session> = Vec::new();
        let mut i: usize = 0;
        let mut dropped: usize = 0;
        proof {
            reveal(Seq::filter);
            assert(those_in(all.take(0), names) =~= kept@);
        }
        while i < self.sessions.len()
            invariant
                i <= self.sessions@.len(),
                all == self.sessions@,
                names == text::texts(live@),
                kept@ == those_in(all.take(i as int), names),
                dropped == i - kept@.len(),
            decreases self.sessions@.len() - i,
        {
            proof {
                reveal(Seq::filter);
                assert(all.take(i + 1).drop_last() =~= all.take(i as int));
                assert(all.take(i + 1).last() == all[i as int]);
            }
            if text::has(live, self.sessions[i].id.as_str()) {
                kept.push(self.sessions[i].clone());
            } else {
                dropped += 1;
            }
            i += 1;
        }
        proof {
            assert(all.take(i as int) =~= all);
            lemma_those_in(all, names);
            assert forall|i: int| 0 <= i < kept@.len() implies (#[trigger] kept@[i]).wf() by {
                assert(those_in(all, names).contains(kept@[i]));
                let k = choose|k: int| 0 <= k < all.len() && all[k] == kept@[i];
                assert(all[k].wf());
            }
        }
        self.sessions = kept;
        dropped
    }

    /// Takes in a session that was created, and tells what has to be written down then.
    pub fn created(&mut self, s: Session) -> (r: Saving)
        requires
            old(self).wf(),
            s.wf(),
        ensures
            final(self).wf(),
            final(self)@ == with_session(old(self)@, s),
            final(self).same_but_sessions(*old(self)),
            final(self).is_saving(r),
    {
        self.insert(s);
        self.save_locked()
    }

    /// Takes a session out, and tells what has to be done then. There has to be one with the id.
    pub fn delete(&mut self, id: &str) -> (r: Result<Deletion, Error>)
        requires
            old(self).wf(),
        ensures
            final(self).wf(),
            final(self).same_but_sessions(*old(self)),
            taken_out(*old(self), id@, *final(self), r),
    {
        match self.find(id) {
            Some(i) => {
                proof {
                    let p = position_of(self@, id@);
                    assert(self@[i as int].id@ == id@);
                    assert(self@[p].id@ == id@);
                    assert(p == i);
                }
                let s = self.sessions.remove(i);
                let ending = s.kill();
                let saving = self.save_locked();
                Ok(Deletion { ending, saving })
            },
            None => Err(Error::NotFound),
        }
    }
}

/// Whether `after` is what is left of a registry when the session with an id is taken out, and `r`
/// what has to be done then, or the error if there is none with the id.
pub open spec fn taken_out(
    before: Registry,
    id: Seq<char>,
    after: Registry,
    r: Result<Deletion, Error>,
) -> bool {
    match r {
        Ok(d) => {
            let p = position_of(before@, id);
            &&& has_id(before@, id)
            &&& after@ == before@.remove(p)
            &&& text::texts(d.ending.args@) == session::kill_command(tmux::tmux_name(id))
            &&& d.ending.socket@ == session::socket_path(id)
            &&& after.is_saving(d.saving)
        },
        Err(e) => {
            &&& e is NotFound
            &&& !has_id(before@, id)
            &&& after@ == before@
        },
    }
}

// ---------------------------------------------------------------------------------------------
// What creation and deletion do
// ---------------------------------------------------------------------------------------------

/// A session that was put in is found under its id, and the others are where they were.
pub proof fn inserted_is_found(list: Seq<Session>, s: Session, id: Seq<char>)
    requires
        distinct_ids(list),
    ensures
        distinct_ids(with_session(list, s)),
        has_id(with_session(list, s), id) <==> has_id(list, id) || id == s.id@,
        with_session(list, s)[position_of(with_session(list, s), s.id@)] == s,
        has_id(list, id) && id != s.id@ ==> with_session(list, s)[position_of(
            with_session(list, s),
            id,
        )] == list[position_of(list, id)],
{
    let r = with_session(list, s);
    let at = if has_id(list, s.id@) {
        position_of(list, s.id@)
    } else {
        list.len() as int
    };
    assert(r[at] == s);
    assert(r[position_of(r, s.id@)].id@ == s.id@);
    if has_id(list, id) && id != s.id@ {
        let i = position_of(list, id);
        assert(list[i].id@ == id);
        assert(r[i] == list[i]);
        assert(r[position_of(r, id)].id@ == id);
    }
    if has_id(r, id) && id != s.id@ {
        let i = position_of(r, id);
        assert(r[i].id@ == id);
        assert(list[i] == r[i]);
    }
}

/// A session that was taken out is not found any more, and the others are.
pub proof fn deleted_is_gone(list: Seq<Session>, gone: Seq<char>, id: Seq<char>)
    requires
        distinct_ids(list),
        has_id(list, gone),
    ensures
        distinct_ids(list.remove(position_of(list, gone))),
        has_id(list.remove(position_of(list, gone)), id) <==> has_id(list, id) && id != gone,
        has_id(list, id) && id != gone ==> list.remove(position_of(list, gone))[position_of(
            list.remove(position_of(list, gone)),
            id,
        )] == list[position_of(list, id)],
{
    let p = position_of(list, gone);
    let r = list.remove(p);
    assert(list[p].id@ == gone);
    if has_id(list, id) && id != gone {
        let i = position_of(list, id);
        assert(list[i].id@ == id);
        let k = if i < p {
            i
        } else {
            i - 1
        };
        assert(r[k] == list[i]);
        assert(r[position_of(r, id)].id@ == id);
        let q = position_of(r, id);
        let o = if q < p {
            q
        } else {
            q + 1
        };
        assert(list[o] == r[q]);
    }
    if has_id(r, id) {
        let q = position_of(r, id);
        assert(r[q].id@ == id);
        let o = if q < p {
            q
        } else {
            q + 1
        };
        assert(list[o] == r[q]);
    }
}

/// What was created and then deleted leaves no trace.
pub proof fn delete_undoes_create(list: Seq<Session>, s: Session)
    requires
        distinct_ids(list),
        !has_id(list, s.id@),
    ensures
        with_session(list, s).remove(position_of(with_session(list, s), s.id@)) == list,
{
    let r = with_session(list, s);
    assert(r[list.len() as int] == s);
    let p = position_of(r, s.id@);
    assert(r[p].id@ == s.id@);
    if p < list.len() {
        assert(list[p] == r[p]);
    }
    assert(r.remove(p) =~= list);
}

/// A session is refused at once exactly if there is one with its id, or if its id is not of 1 to 64
/// small and capital letters of ASCII, figures, hyphens and underscores.
pub proof fn refused_or_opened(list: Seq<Session>, id: Seq<char>)
    ensures
        create_refusal(list, id) is None <==> {
            &&& forall|i: int| 0 <= i < list.len() ==> (#[trigger] list[i]).id@ != id
            &&& 1 <= id.len() <= 64
            &&& forall|i: int|
                0 <= i < id.len() ==> 'a' <= #[trigger] id[i] <= 'z' || 'A' <= id[i] <= 'Z' || '0'
                    <= id[i] <= '9' || id[i] == '-' || id[i] == '_'
        },
        has_id(list, id) ==> create_refusal(list, id) == Some(
            "session '"@ + id + "' already exists"@,
        ),
{
    session::ids_that_are_allowed(id);
}

/// What is written down of a session is its id, its directory, its command and the time of its
/// creation; of sessions, one after the other.
pub proof fn what_is_written_down(list: Seq<Session>, i: int)
    requires
        0 <= i < list.len(),
    ensures
        metas_of(list).len() == list.len(),
        metas_of(list)[i].id == list[i].id,
        metas_of(list)[i].cwd == list[i].cwd,
        metas_of(list)[i].cmd == list[i].cmd,
        metas_of(list)[i].created_at == list[i].created_at,
{
}

/// A session that is younger than all others of a list, or as old as the youngest, comes last.
pub proof fn youngest_comes_last(list: Seq<SessionMeta>, m: SessionMeta)
    requires
        forall|i: int| 0 <= i < list.len() ==> (#[trigger] list[i]).created_at <= m.created_at,
    ensures
        by_age(list.push(m)) == by_age(list).push(m),
{
    let before = by_age(list);
    assert(list.push(m).drop_last() =~= list);
    by_age_sorts(list);
    lemma_count_older(before, m.created_at);
    let k = count_older(before, m.created_at) as int;
    if k < before.len() {
        broadcast use vstd::seq_lib::group_to_multiset_ensures;
        assert(before.contains(before[k]));
        assert(before.to_multiset().count(before[k]) > 0);
        assert(list.contains(before[k]));
        let i = choose|i: int| 0 <= i < list.len() && list[i] == before[k];
        assert(list[i].created_at <= m.created_at);
    }
    assert(before.insert(k, m) =~= before.push(m));
}

/// A session is taken out exactly if it is there: it is gone then, and the others stay; tmux ends it by
/// its name, and its socket goes; and what is written down is what is left, the oldest first.
pub proof fn taken_out_and_ended(
    before: Registry,
    gone: Seq<char>,
    after: Registry,
    r: Result<Deletion, Error>,
    id: Seq<char>,
)
    requires
        before.wf(),
        taken_out(before, gone, after, r),
    ensures
        r is Ok <==> exists|i: int| 0 <= i < before@.len() && (#[trigger] before@[i]).id@ == gone,
        has_id(after@, id) <==> has_id(before@, id) && id != gone,
        match r {
            Ok(d) => {
                &&& text::texts(d.ending.args@) == seq!["kill-session"@, "-t"@, "disbot-"@ + gone]
                &&& d.ending.socket@ == "/tmp/disbot-"@ + gone + ".sock"@
                &&& d.saving.path@ == after.path()
                &&& is_by_age(d.saving.metas@)
                &&& d.saving.metas@.to_multiset() == metas_of(after@).to_multiset()
                &&& after@.len() == before@.len() - 1
            },
            Err(e) => e.text() == "session not found"@ && after@ == before@,
        },
{
    if has_id(before@, gone) {
        deleted_is_gone(before@, gone, id);
        let p = position_of(before@, gone);
        assert(before@[p].id@ == gone);
    }
    by_age_sorts(metas_of(after@));
}

/// A registry in which nothing but the sessions differs has the same file and the same command, and
/// what is written down goes to that file.
pub proof fn file_and_command_stay(before: Registry, after: Registry, s: Saving)
    requires
        after.same_but_sessions(before),
        after.is_saving(s),
    ensures
        after.command() == before.command(),
        after.path() == before.path(),
        s.path@ == before.path(),
        s.metas@.len() == after@.len(),
        is_by_age(s.metas@),
{
    by_age_sorts(metas_of(after@));
}

} // verus!
