//! Passing on what a session has to say: its screen is sent to the owner when the owner waits for
//! it and the session has come to rest.

use vstd::prelude::*;
use crate::error::Error;
use crate::registry;
use crate::registry::Registry;
use crate::screen;
use crate::screen::Message;
use crate::session;
use crate::session::Session;
use crate::text;
use crate::tg;
use crate::tg::State;

verus! {

/// How long, in nanoseconds, a session has to be quiet to count as at rest.
pub const IDLE_THRESHOLD: u128 = 1_500_000_000;

/// How long, in nanoseconds, the sign that a session is at work stands.
pub const TYPING_THROTTLE: u128 = 4_000_000_000;

/// How many lines of the screen are passed on.
pub const FORWARD_LINES: u32 = 40;

/// How long, in seconds, to wait when there is no owner.
pub const NO_OWNER_WAIT: u64 = 2;

/// How long, in seconds, to wait when there is no session.
pub const NO_SESSION_WAIT: u64 = 1;

/// What came from a session's output.
#[derive(Clone, Copy, PartialEq, Eq, Structural, Debug)]
pub enum Received {
    /// A piece of it.
    Piece,
    /// Some pieces were missed: how many.
    Lagged(u64),
    /// Its end.
    Closed,
    /// Nothing for a while.
    Idle,
}

/// What to watch.
#[derive(Debug)]
pub enum Follow {
    /// Nothing yet; look again after so many seconds.
    Wait(u64),
    /// The session, for the chat with the owner.
    Watch { chat: i64, id: String },
}

/// Whether `r` is what to watch.
pub open spec fn to_follow(state: State, sessions: Seq<Session>, r: Follow) -> bool {
    match (state.owner, tg::current_in(state.current, sessions)) {
        (None, _) => r == Follow::Wait(NO_OWNER_WAIT),
        (Some(_), None) => r == Follow::Wait(NO_SESSION_WAIT),
        (Some(o), Some(s)) => r matches Follow::Watch { chat, id } && chat == o && id@ == s.id@,
    }
}

/// Finds what to watch: the session that the bot works with, once there is an owner.
pub fn follow(state: &State, registry: &Registry) -> (r: Follow)
    requires
        registry.wf(),
    ensures
        to_follow(*state, registry@, r),
{
    match state.owner {
        None => Follow::Wait(NO_OWNER_WAIT),
        Some(o) => match state.current_session(registry) {
            None => Follow::Wait(NO_SESSION_WAIT),
            Some(s) => Follow::Watch { chat: o, id: s.id.clone() },
        },
    }
}

/// The watch over a session. Times are in nanoseconds, by a clock that does not go back.
#[derive(Debug)]
pub struct Watch {
    pub session_id: String,
    /// The hash of the screen that was sent last.
    pub last_hash: u64,
    /// Whether there was output since the session last counted as at rest.
    pub activity_pending: bool,
    pub last_activity: u128,
    /// When the sign that the session is at work was last given.
    pub last_typing: Option<u128>,
}

/// What to do about what came.
#[derive(Debug)]
pub enum WatchAction {
    /// Nothing; the watch goes on.
    GoOn,
    /// Give the sign that the session is at work.
    Typing,
    /// Give tmux a command that shows the screen; then see [`Watch::captured`].
    Capture(Vec<String>),
    /// End the watch.
    Stop,
}

/// How much time lies between two moments; none, if the later one is not later.
pub open spec fn elapsed(since: u128, now: u128) -> int {
    if now >= since {
        now - since
    } else {
        0
    }
}

fn time_since(since: u128, now: u128) -> (r: u128)
    ensures
        r == elapsed(since, now),
{
    if now >= since {
        now - since
    } else {
        0
    }
}

/// Whether it is time to give the sign that a session is at work.
pub open spec fn typing_due(last: Option<u128>, now: u128) -> bool {
    match last {
        Some(t) => elapsed(t, now) > TYPING_THROTTLE,
        None => true,
    }
}

/// Whether the screen of a session is to be looked at: it had something to say, it is at rest, and
/// the owner waits.
pub open spec fn screen_due(w: Watch, state: State, now: u128) -> bool {
    w.activity_pending && elapsed(w.last_activity, now) >= IDLE_THRESHOLD && state.expecting_reply
}

/// What comes of something that was received: the watch and the state that follow, and what to do.
pub open spec fn received(
    before: Watch,
    state: State,
    tmux_name: Seq<char>,
    e: Received,
    now: u128,
    after: Watch,
    state_after: State,
    a: WatchAction,
) -> bool {
    match e {
        Received::Piece => {
            let noted = Watch { activity_pending: true, last_activity: now, ..before };
            &&& state_after == state
            &&& if typing_due(before.last_typing, now) {
                a is Typing && after == (Watch { last_typing: Some(now), ..noted })
            } else {
                a is GoOn && after == noted
            }
        },
        Received::Lagged(_) => a is GoOn && after == before && state_after == state,
        Received::Closed => a is Stop && after == before && state_after == state,
        Received::Idle => if !before.activity_pending || elapsed(before.last_activity, now)
            < IDLE_THRESHOLD {
            a is GoOn && after == before && state_after == state
        } else {
            &&& after == (Watch { activity_pending: false, ..before })
            &&& state_after == (State { expecting_reply: false, ..state })
            &&& if state.expecting_reply {
                a matches WatchAction::Capture(args) && text::texts(args@)
                    == session::capture_command(tmux_name, FORWARD_LINES)
            } else {
                a is GoOn
            }
        },
    }
}

/// Whether a screen is news: it is not blank, and its hash is not that of the screen before.
pub open spec fn is_news(last_hash: u64, hash: u64, shown: Seq<char>) -> bool {
    hash != last_hash && !text::is_blank(shown)
}

/// What comes of a screen that was looked at: the watch that follows, and the messages that are sent.
/// There are none if the screen could not be looked at, or if it is no news.
pub open spec fn looked(
    before: Watch,
    result: Result<String, Error>,
    after: Watch,
    sent: Seq<(Seq<char>, bool)>,
) -> bool {
    match result {
        Ok(raw) => {
            let shown = screen::without_tail(raw@);
            let hash = screen::text_hash(shown);
            if is_news(before.last_hash, hash, shown) {
                sent == screen::screen_said(shown) && after == (Watch { last_hash: hash, ..before })
            } else {
                sent.len() == 0 && after == before
            }
        },
        Err(_) => sent.len() == 0 && after == before,
    }
}

impl Watch {
    /// A watch over a session that starts now.
    pub fn new(session_id: String, now: u128) -> (r: Watch)
        ensures
            r == (Watch {
                session_id,
                last_hash: 0,
                activity_pending: false,
                last_activity: now,
                last_typing: None,
            }),
    {
        Watch {
            session_id,
            last_hash: 0,
            activity_pending: false,
            last_activity: now,
            last_typing: None,
        }
    }

    /// Whether the session is still the one that the bot works with.
    pub fn goes_on(&self, state: &State) -> (r: bool)
        ensures
            r == (text::opt_text(state.current) == Some(self.session_id@)),
    {
        text::opt_same(&state.current, self.session_id.as_str())
    }

    /// Takes in what came from the session's output.
    pub fn take_in(&mut self, state: &mut State, session: &Session, e: Received, now: u128) -> (a:
        WatchAction)
        ensures
            received(
                *old(self),
                *old(state),
                session.tmux_name@,
                e,
                now,
                *final(self),
                *final(state),
                a,
            ),
    {
        match e {
            Received::Piece => {
                self.activity_pending = true;
                self.last_activity = now;
                let due = match self.last_typing {
                    Some(t) => time_since(t, now) > TYPING_THROTTLE,
                    None => true,
                };
                if due {
                    self.last_typing = Some(now);
                    WatchAction::Typing
                } else {
                    WatchAction::GoOn
                }
            },
            Received::Lagged(_) => WatchAction::GoOn,
            Received::Closed => WatchAction::Stop,
            Received::Idle => {
                if !self.activity_pending || time_since(self.last_activity, now) < IDLE_THRESHOLD {
                    return WatchAction::GoOn;
                }
                self.activity_pending = false;
                if !state.expecting_reply {
                    return WatchAction::GoOn;
                }
                state.expecting_reply = false;
                WatchAction::Capture(session.capture_tail(FORWARD_LINES))
            },
        }
    }

    /// Sees whether a screen with this hash is news, and keeps the hash in mind if it is.
    pub fn judge(&mut self, hash: u64, shown: &str) -> (r: bool)
        ensures
            r == is_news(old(self).last_hash, hash, shown@),
            *final(self) == (Watch {
                last_hash: if r {
                    hash
                } else {
                    old(self).last_hash
                },
                ..*old(self)
            }),
    {
        if hash == self.last_hash || text::blank(shown) {
            false
        } else {
            self.last_hash = hash;
            true
        }
    }

    /// The messages for a screen that was looked at: none, if it could not be, or if it is no news.
    pub fn captured(&mut self, result: Result<String, Error>) -> (r: Vec<Message>)
        ensures
            looked(*old(self), result, *final(self), screen::said(r@)),
    {
        match result {
            Ok(raw) => {
                let shown = screen::trim_tail(raw.as_str());
                let hash = screen::hash_str(shown.as_str());
                if self.judge(hash, shown.as_str()) {
                    screen::send_screen(shown.as_str())
                } else {
                    let none: Vec<Message> = Vec::new();
                    assert(screen::said(none@) =~= seq![]);
                    none
                }
            },
            Err(_) => {
                let none: Vec<Message> = Vec::new();
                assert(screen::said(none@) =~= seq![]);
                none
            },
        }
    }
}

/// A screen is looked at only if the owner waits for it, and then the owner does not wait any more:
/// each time that the owner has typed something, the screen is looked at once at most.
pub proof fn one_look_for_one_wait(
    before: Watch,
    state: State,
    tmux_name: Seq<char>,
    e: Received,
    now: u128,
    after: Watch,
    state_after: State,
    a: WatchAction,
)
    requires
        received(before, state, tmux_name, e, now, after, state_after, a),
    ensures
        a is Capture <==> e is Idle && screen_due(before, state, now),
        a is Capture ==> !state_after.expecting_reply,
        state_after.expecting_reply ==> state.expecting_reply,
        state_after.owner == state.owner,
        state_after.current == state.current,
{
}

/// The sign that a session is at work is not given again before the last one has faded.
pub proof fn typing_is_throttled(
    before: Watch,
    state: State,
    tmux_name: Seq<char>,
    e: Received,
    now: u128,
    after: Watch,
    state_after: State,
    a: WatchAction,
)
    requires
        received(before, state, tmux_name, e, now, after, state_after, a),
    ensures
        a is Typing ==> after.last_typing == Some(now),
        !(a is Typing) ==> after.last_typing == before.last_typing,
        a is Typing && before.last_typing is Some ==> now - before.last_typing->0
            > TYPING_THROTTLE,
{
}

/// Something that happens in the course of a watch: something is received, or a screen was looked at.
pub enum Happening {
    Received {
        state: State,
        tmux_name: Seq<char>,
        e: Received,
        now: u128,
        state_after: State,
        a: WatchAction,
    },
    Looked { result: Result<String, Error>, sent: Seq<(Seq<char>, bool)> },
}

/// Whether a state of a watch is followed by the next one, given what happens there.
pub open spec fn watch_step_at(watches: Seq<Watch>, happenings: Seq<Happening>, k: int) -> bool {
    match happenings[k] {
        Happening::Received { state, tmux_name, e, now, state_after, a } => received(
            watches[k],
            state,
            tmux_name,
            e,
            now,
            watches[k + 1],
            state_after,
            a,
        ),
        Happening::Looked { result, sent } => looked(watches[k], result, watches[k + 1], sent),
    }
}

/// The states that a watch goes through, and what happens at each of them but the last.
pub open spec fn is_watch(watches: Seq<Watch>, happenings: Seq<Happening>) -> bool {
    &&& watches.len() == happenings.len() + 1
    &&& forall|k: int|
        0 <= k < happenings.len() ==> #[trigger] watch_step_at(watches, happenings, k)
}

/// The screen that is sent at a state of a watch, if one is.
pub open spec fn screen_sent(
    watches: Seq<Watch>,
    happenings: Seq<Happening>,
    k: int,
) -> Option<Seq<char>> {
    match happenings[k] {
        Happening::Looked { result: Ok(raw), .. } => {
            let shown = screen::without_tail(raw@);
            if is_news(watches[k].last_hash, screen::text_hash(shown), shown) {
                Some(shown)
            } else {
                None
            }
        },
        _ => None,
    }
}

proof fn lemma_hash_stays(watches: Seq<Watch>, happenings: Seq<Happening>, j: int, k: int)
    requires
        is_watch(watches, happenings),
        0 <= j < k <= happenings.len(),
        screen_sent(watches, happenings, j) is Some,
        forall|i: int| j < i < k ==> (#[trigger] screen_sent(watches, happenings, i)) is None,
    ensures
        watches[k].last_hash == screen::text_hash(screen_sent(watches, happenings, j)->0),
    decreases k,
{
    let i = k - 1;
    assert(watch_step_at(watches, happenings, i));
    if i > j {
        lemma_hash_stays(watches, happenings, j, i);
        assert(screen_sent(watches, happenings, i) is None);
    }
}

/// Two screens that are sent one after the other differ, whatever is received and whatever other
/// screens are looked at between them.
pub proof fn screens_sent_in_a_row_differ(
    watches: Seq<Watch>,
    happenings: Seq<Happening>,
    j: int,
    k: int,
)
    requires
        is_watch(watches, happenings),
        0 <= j < k < happenings.len(),
        screen_sent(watches, happenings, j) is Some,
        screen_sent(watches, happenings, k) is Some,
        forall|i: int| j < i < k ==> (#[trigger] screen_sent(watches, happenings, i)) is None,
    ensures
        screen_sent(watches, happenings, j) != screen_sent(watches, happenings, k),
{
    lemma_hash_stays(watches, happenings, j, k);
}

// ---------------------------------------------------------------------------------------------
// The history of a watch
// ---------------------------------------------------------------------------------------------

/// When a piece of output came, if one came at a state of a watch.
pub open spec fn piece_at(happenings: Seq<Happening>, k: int) -> Option<u128> {
    match happenings[k] {
        Happening::Received { e: Received::Piece, now, .. } => Some(now),
        _ => None,
    }
}

/// Whether the screen is to be looked at, by what was decided at a state of a watch.
pub open spec fn look_at(happenings: Seq<Happening>, k: int) -> bool {
    match happenings[k] {
        Happening::Received { a: WatchAction::Capture(_), .. } => true,
        _ => false,
    }
}

/// When the sign that the session is at work was given, if it was at a state of a watch.
pub open spec fn sign_at(happenings: Seq<Happening>, k: int) -> Option<u128> {
    match happenings[k] {
        Happening::Received { a: WatchAction::Typing, now, .. } => Some(now),
        _ => None,
    }
}

/// Whether the last piece of output before the state `k` of a watch came at the state `j`, at the time
/// `t`.
pub open spec fn last_piece(happenings: Seq<Happening>, j: int, k: int, t: u128) -> bool {
    &&& 0 <= j < k
    &&& piece_at(happenings, j) == Some(t)
    &&& forall|i: int| j < i < k ==> (#[trigger] piece_at(happenings, i)) is None
}

proof fn lemma_pending(watches: Seq<Watch>, happenings: Seq<Happening>, k: int) -> (j: int)
    requires
        is_watch(watches, happenings),
        !watches[0].activity_pending,
        0 <= k < watches.len(),
        watches[k].activity_pending,
    ensures
        last_piece(happenings, j, k, watches[k].last_activity),
        forall|i: int| j < i < k ==> !#[trigger] look_at(happenings, i),
    decreases k,
{
    let i = k - 1;
    assert(watch_step_at(watches, happenings, i));
    if piece_at(happenings, i) is Some {
        i
    } else {
        lemma_pending(watches, happenings, i)
    }
}

/// A screen is looked at only if some output came, the last piece of it at least one and a half
/// seconds ago, if it was not looked at since, and if the owner waits. Then the owner does not wait
/// any more, and what is looked at is the last 40 lines of the session.
pub proof fn looked_at_when_at_rest(
    watches: Seq<Watch>,
    happenings: Seq<Happening>,
    k: int,
) -> (j: int)
    requires
        is_watch(watches, happenings),
        !watches[0].activity_pending,
        0 <= k < happenings.len(),
        look_at(happenings, k),
    ensures
        0 <= j < k,
        piece_at(happenings, j) is Some,
        forall|i: int| j < i < k ==> (#[trigger] piece_at(happenings, i)) is None,
        forall|i: int| j < i < k ==> !#[trigger] look_at(happenings, i),
        match happenings[k] {
            Happening::Received { state, tmux_name, e, now, state_after, a } => {
                &&& now >= piece_at(happenings, j)->0 + 1_500_000_000
                &&& e is Idle
                &&& state.expecting_reply
                &&& !state_after.expecting_reply
                &&& a matches WatchAction::Capture(args)
                &&& text::texts(args@).len() == 7
                &&& text::texts(args@)[0] == "capture-pane"@
                &&& text::texts(args@)[4] == tmux_name
                &&& crate::number::signed_value(text::texts(args@)[6]) == Some(-40int)
            },
            _ => false,
        },
{
    assert(watch_step_at(watches, happenings, k));
    match happenings[k] {
        Happening::Received { state, tmux_name, e, now, state_after, a } => {
            session::as_many_lines_as_wished(tmux_name, 40);
            let c = session::capture_command(tmux_name, 40);
            assert(c.take(6)[0] == c[0]);
            assert(c.take(6)[4] == c[4]);
        },
        _ => {},
    }
    lemma_pending(watches, happenings, k)
}

proof fn lemma_still_pending(
    watches: Seq<Watch>,
    happenings: Seq<Happening>,
    j: int,
    k: int,
    t: u128,
)
    requires
        is_watch(watches, happenings),
        0 <= j < k < watches.len(),
        piece_at(happenings, j) == Some(t),
        forall|i: int| j < i < k ==> (#[trigger] quiet_at(happenings, i, t)),
    ensures
        watches[k].activity_pending,
        watches[k].last_activity == t,
    decreases k,
{
    let i = k - 1;
    assert(watch_step_at(watches, happenings, i));
    if i > j {
        lemma_still_pending(watches, happenings, j, i, t);
        assert(quiet_at(happenings, i, t));
    }
}

/// Whether no output comes at a state of a watch, and the session does not count as at rest there, if
/// the last output came at the time `t`.
pub open spec fn quiet_at(happenings: Seq<Happening>, k: int, t: u128) -> bool {
    match happenings[k] {
        Happening::Received { e, now, .. } => !(e is Piece) && (e is Idle ==> now < t
            + 1_500_000_000),
        Happening::Looked { .. } => true,
    }
}

/// As soon as a session that had something to say is found to be quiet for one and a half seconds, its
/// screen is looked at, if the owner waits.
pub proof fn looked_at_once_at_rest(
    watches: Seq<Watch>,
    happenings: Seq<Happening>,
    j: int,
    k: int,
    t: u128,
)
    requires
        is_watch(watches, happenings),
        0 <= j < k < happenings.len(),
        piece_at(happenings, j) == Some(t),
        forall|i: int| j < i < k ==> (#[trigger] quiet_at(happenings, i, t)),
        happenings[k] matches Happening::Received { e: Received::Idle, now, .. } && now >= t
            + 1_500_000_000,
    ensures
        match happenings[k] {
            Happening::Received { state, .. } => look_at(happenings, k) <==> state.expecting_reply,
            _ => false,
        },
{
    lemma_still_pending(watches, happenings, j, k, t);
    assert(watch_step_at(watches, happenings, k));
}

/// A look is the only thing that ends the owner's wait, and nothing that is received begins one. The
/// owner and the session in use stay the same. A watch is ended by the end of the output alone.
pub proof fn only_a_look_ends_the_wait(
    before: Watch,
    state: State,
    tmux_name: Seq<char>,
    e: Received,
    now: u128,
    after: Watch,
    state_after: State,
    a: WatchAction,
)
    requires
        received(before, state, tmux_name, e, now, after, state_after, a),
    ensures
        state_after.expecting_reply != state.expecting_reply <==> a is Capture,
        a is Capture ==> state.expecting_reply,
        state_after.owner == state.owner,
        state_after.current == state.current,
        a is Stop <==> e is Closed,
        a is Typing ==> e is Piece,
        after.session_id == before.session_id,
        after.last_hash == before.last_hash,
{
}

proof fn lemma_sign(watches: Seq<Watch>, happenings: Seq<Happening>, j: int, k: int, t: u128)
    requires
        is_watch(watches, happenings),
        0 <= j < k < watches.len(),
        sign_at(happenings, j) == Some(t),
        forall|i: int| j < i < k ==> (#[trigger] sign_at(happenings, i)) is None,
    ensures
        watches[k].last_typing == Some(t),
    decreases k,
{
    let i = k - 1;
    assert(watch_step_at(watches, happenings, i));
    if i > j {
        lemma_sign(watches, happenings, j, i, t);
        assert(sign_at(happenings, i) is None);
    }
}

/// Output makes the sign that the session is at work be given, if the last one is more than four
/// seconds old.
pub proof fn sign_is_given_again(
    watches: Seq<Watch>,
    happenings: Seq<Happening>,
    j: int,
    k: int,
)
    requires
        is_watch(watches, happenings),
        0 <= j < k < happenings.len(),
        sign_at(happenings, j) is Some,
        forall|i: int| j < i < k ==> (#[trigger] sign_at(happenings, i)) is None,
        piece_at(happenings, k) is Some,
    ensures
        sign_at(happenings, k) is Some <==> piece_at(happenings, k)->0 > sign_at(happenings, j)->0
            + 4_000_000_000,
{
    lemma_sign(watches, happenings, j, k, sign_at(happenings, j)->0);
    assert(watch_step_at(watches, happenings, k));
}

proof fn lemma_no_sign(watches: Seq<Watch>, happenings: Seq<Happening>, k: int)
    requires
        is_watch(watches, happenings),
        watches[0].last_typing is None,
        0 <= k < watches.len(),
        forall|i: int| 0 <= i < k ==> (#[trigger] sign_at(happenings, i)) is None,
    ensures
        watches[k].last_typing is None,
    decreases k,
{
    if k > 0 {
        lemma_no_sign(watches, happenings, k - 1);
        assert(watch_step_at(watches, happenings, k - 1));
        assert(sign_at(happenings, k - 1) is None);
    }
}

/// The first output of a watch makes the sign be given.
pub proof fn sign_is_given_at_first(watches: Seq<Watch>, happenings: Seq<Happening>, k: int)
    requires
        is_watch(watches, happenings),
        watches[0].last_typing is None,
        0 <= k < happenings.len(),
        forall|i: int| 0 <= i < k ==> (#[trigger] sign_at(happenings, i)) is None,
        piece_at(happenings, k) is Some,
    ensures
        sign_at(happenings, k) == piece_at(happenings, k),
{
    lemma_no_sign(watches, happenings, k);
    assert(watch_step_at(watches, happenings, k));
}

/// A screen that shows something, and another hash than that of the last one, is sent whole; one that
/// shows nothing, or has the same hash, or could not be looked at, is not, and leaves the watch as it
/// was.
pub proof fn news_is_sent(
    before: Watch,
    result: Result<String, Error>,
    after: Watch,
    sent: Seq<(Seq<char>, bool)>,
)
    requires
        looked(before, result, after, sent),
    ensures
        match result {
            Ok(raw) => {
                let shown = screen::without_tail(raw@);
                if (exists|i: int| 0 <= i < shown.len() && !text::is_white_space(#[trigger] shown[i]))
                    && screen::text_hash(shown) != before.last_hash {
                    &&& screen::all_shown(sent) == screen::all_in_one(text::lines(shown))
                    &&& after == (Watch { last_hash: screen::text_hash(shown), ..before })
                } else {
                    sent.len() == 0 && after == before
                }
            },
            Err(_) => sent.len() == 0 && after == before,
        },
{
    match result {
        Ok(raw) => {
            let shown = screen::without_tail(raw@);
            text::blank_is_all_space(shown);
            let tail = screen::tail_is_cut_off(raw@);
            assert(screen::without_tail(shown) == shown);
            screen::messages_show_the_screen(shown);
        },
        Err(_) => {},
    }
}

/// The session in use is watched for the owner, if there is an owner and the session is there.
/// Otherwise the next look is after two seconds without an owner, and after one without a session.
pub proof fn session_in_use_is_watched(state: State, sessions: Seq<Session>, r: Follow)
    requires
        to_follow(state, sessions, r),
    ensures
        ({
            let there = state.current is Some && exists|i: int|
                0 <= i < sessions.len() && (#[trigger] sessions[i]).id@ == state.current->0@;
            match r {
                Follow::Wait(seconds) => if state.owner is None {
                    seconds == 2
                } else {
                    !there && seconds == 1
                },
                Follow::Watch { chat, id } => state.owner == Some(chat) && there && id@
                    == state.current->0@,
            }
        }),
{
    if state.current is Some && registry::has_id(sessions, state.current->0@) {
        let p = registry::position_of(sessions, state.current->0@);
        assert(sessions[p].id@ == state.current->0@);
    }
}

} // verus!
