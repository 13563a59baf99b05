//! What a browser may ask for, and what it is answered.

use axum::http::HeaderValue;
use vstd::prelude::*;
use crate::error::Error;
use crate::home;
use crate::number;
use crate::registry;
use crate::registry::{Deletion, Registry, SessionMeta};
use crate::session;
use crate::session::{Opening, Session, DEFAULT_COLS, DEFAULT_ROWS};
use crate::text;
use crate::text::around;
use crate::tmux;

verus! {

/// How many lines of a session are shown when nothing else is asked for.
pub const SCROLLBACK_DEFAULT: u32 = 2000;

/// How many lines of a session are shown at most.
pub const SCROLLBACK_MAX: u32 = 20_000;

/// A request for a new session.
#[derive(Debug)]
pub struct CreateReq {
    pub id: String,
    pub cwd: Option<String>,
    pub cmd: Option<String>,
}

/// What an answer holds.
#[derive(Debug)]
pub enum Body {
    Empty,
    Text(String),
    Session(SessionMeta),
    Sessions(Vec<SessionMeta>),
}

/// An answer: its status, and what it holds.
#[derive(Debug)]
pub struct Answer {
    pub status: u16,
    pub body: Body,
}

impl Answer {
    /// Whether an answer has a status and holds a text.
    pub open spec fn says(self, status: u16, words: Seq<char>) -> bool {
        self.body matches Body::Text(t) && self.status == status && t@ == words
    }
}

fn answer(status: u16, words: String) -> (r: Answer)
    ensures
        r.says(status, words@),
{
    Answer { status, body: Body::Text(words) }
}

/// What is said of a session that is not there.
pub open spec fn no_session(id: Seq<char>) -> Seq<char> {
    "no session '"@ + id + "'"@
}

/// The answer when a session is not there.
pub fn not_there(id: &str) -> (r: Answer)
    ensures
        r.says(404, no_session(id@)),
{
    answer(404, around("no session '", id, "'"))
}

// ---------------------------------------------------------------------------------------------
// Who may ask
// ---------------------------------------------------------------------------------------------

/// `axum::http::HeaderValue`, the bytes of a header.
#[verifier::external_type_specification]
#[verifier::external_body]
pub struct ExHeaderValue(HeaderValue);

/// The bytes that a header holds.
pub uninterp spec fn header_bytes(v: HeaderValue) -> Seq<u8>;

/// The characters that bytes stand for, if all of them are visible ones of ASCII, or tabs.
pub open spec fn visible_text(bytes: Seq<u8>) -> Option<Seq<char>> {
    if forall|i: int| 0 <= i < bytes.len() ==> (32 <= #[trigger] bytes[i] < 127 || bytes[i] == 9) {
        Some(Seq::new(bytes.len(), |i: int| bytes[i] as char))
    } else {
        None
    }
}

/// `HeaderValue::to_str` gives the text of a header whose bytes are all visible characters of
/// ASCII, or tabs, and refuses any other.
#[verifier::external_body]
fn header_text(v: &HeaderValue) -> (r: Option<String>)
    ensures
        text::opt_text(r) == visible_text(header_bytes(*v)),
{
    v.to_str().ok().map(|s| s.to_string())
}

/// The token that the text of a header brings.
pub open spec fn bearer(header: Option<Seq<char>>) -> Option<Seq<char>> {
    match header {
        Some(h) => text::after_prefix(h, "Bearer "@),
        None => None,
    }
}

/// The token that a request brings: the one in its address, or else the one in its header.
pub open spec fn token_in(query: Option<Seq<char>>, header: Option<Seq<char>>) -> Option<Seq<char>> {
    match query {
        Some(t) => Some(t),
        None => bearer(header),
    }
}

/// Whether a request brings the right token. `query` is the one in its address, `header` the text
/// of the header that can bring one.
pub fn authorized(token: &str, query: &Option<String>, header: &Option<String>) -> (r: bool)
    ensures
        r == (token_in(text::opt_text(*query), text::opt_text(*header)) == Some(token@)),
{
    match query {
        Some(t) => text::same(t.as_str(), token),
        None => match header {
            Some(h) => match text::strip_prefix(h.as_str(), "Bearer ") {
                Some(t) => text::same(t.as_str(), token),
                None => false,
            },
            None => false,
        },
    }
}

/// Whether `r` is what a request is answered that brings a token in its address, or bytes in its
/// header, or neither: nothing, if it may go on.
pub open spec fn auth_answered(
    token: Seq<char>,
    query: Option<Seq<char>>,
    header: Option<Seq<u8>>,
    r: Option<Answer>,
) -> bool {
    let sent = match header {
        Some(bytes) => visible_text(bytes),
        None => None,
    };
    match r {
        None => token_in(query, sent) == Some(token),
        Some(a) => token_in(query, sent) != Some(token) && a.says(401, "bad token"@),
    }
}

/// The answer to a request that does not bring the right token, none to one that does.
pub fn auth_middleware(token: &str, query: &Option<String>, header: Option<&HeaderValue>) -> (r:
    Option<Answer>)
    ensures
        auth_answered(
            token@,
            text::opt_text(*query),
            match header {
                Some(v) => Some(header_bytes(*v)),
                None => None,
            },
            r,
        ),
{
    let sent = match header {
        Some(v) => header_text(v),
        None => None,
    };
    if authorized(token, query, &sent) {
        None
    } else {
        Some(answer(401, "bad token".to_string()))
    }
}

/// A token in the address of a request decides, whatever the header brings.
pub proof fn address_decides(token: Seq<char>, query: Seq<char>, header: Option<Seq<char>>)
    ensures
        token_in(Some(query), header) == Some(token) <==> query == token,
{
}

/// The right token behind the word for it is accepted from the header, if the address brings none.
pub proof fn header_is_accepted(token: Seq<char>)
    ensures
        token_in(None, Some("Bearer "@ + token)) == Some(token),
{
    let p = "Bearer "@;
    assert((p + token).subrange(0, p.len() as int) =~= p);
    assert((p + token).skip(p.len() as int) =~= token);
}

// ---------------------------------------------------------------------------------------------
// Sessions
// ---------------------------------------------------------------------------------------------

/// The sessions that there are, the oldest first.
pub fn list_sessions(registry: &Registry) -> (r: Answer)
    ensures
        r.status == 200,
        r.body matches Body::Sessions(list) && list@ == registry::by_age(
            registry::metas_of(registry@),
        ),
{
    Answer { status: 200, body: Body::Sessions(registry.list()) }
}

/// What an optional text holds unless it is blank, or else `other`.
pub open spec fn unless_blank(o: Option<String>, other: Seq<char>) -> Seq<char> {
    match o {
        Some(s) if !text::is_blank(s@) => s@,
        _ => other,
    }
}

fn string_unless_blank(o: Option<String>, other: &str) -> (r: String)
    ensures
        r@ == unless_blank(o, other@),
{
    match o {
        Some(s) => if text::blank(s.as_str()) {
            other.to_string()
        } else {
            s
        },
        None => other.to_string(),
    }
}

/// Whether `r` is what comes of a request for a session, with these sessions in the registry and this
/// command for sessions that ask for none.
pub open spec fn creation_asked(
    sessions: Seq<Session>,
    default_cmd: Seq<char>,
    req: CreateReq,
    home: Option<Seq<char>>,
    r: Result<Opening, Answer>,
) -> bool {
    match r {
        Ok(o) => registry::create_refusal(sessions, req.id@) is None && o.starts(
            req.id@,
            unless_blank(req.cwd, home::home_or_root(home)),
            unless_blank(req.cmd, default_cmd),
            DEFAULT_COLS,
            DEFAULT_ROWS,
        ),
        Err(a) => registry::create_refusal(sessions, req.id@) matches Some(why) && a.says(400, why),
    }
}

/// Starts to create the session that was asked for, or tells why it is refused.
pub fn create_session(registry: &Registry, req: CreateReq, home: &Option<String>) -> (r: Result<
    Opening,
    Answer,
>)
    ensures
        creation_asked(registry@, registry.command(), req, text::opt_text(*home), r),
{
    let start = home::default_cwd(home);
    let cwd = string_unless_blank(req.cwd, start.as_str());
    let cmd = string_unless_blank(req.cmd, registry.default_cmd());
    match registry.create(req.id, cwd, cmd, DEFAULT_COLS, DEFAULT_ROWS) {
        Ok(o) => Ok(o),
        Err(e) => Err(answer(400, e.message())),
    }
}

/// Whether `r` is the answer once it is known whether a session was created.
pub open spec fn creation_answered(result: Result<&Session, String>, r: Answer) -> bool {
    match result {
        Ok(s) => r == (Answer { status: 201, body: Body::Session(registry::meta_of(*s)) }),
        Err(why) => r.says(400, why@),
    }
}

/// The answer once it is known whether a session was created.
pub fn session_created(result: Result<&Session, String>) -> (r: Answer)
    ensures
        creation_answered(result, r),
{
    match result {
        Ok(s) => Answer { status: 201, body: Body::Session(SessionMeta::from_session(s)) },
        Err(why) => answer(400, why),
    }
}

/// Takes out the session that is to go, or tells that it is not there.
pub fn delete_session(registry: &mut Registry, id: &str) -> (r: Result<Deletion, Answer>)
    requires
        old(registry).wf(),
    ensures
        final(registry).wf(),
        final(registry).same_but_sessions(*old(registry)),
        match r {
            Ok(d) => registry::taken_out(*old(registry), id@, *final(registry), Ok(d)),
            Err(a) => {
                &&& registry::taken_out(
                    *old(registry),
                    id@,
                    *final(registry),
                    Err(Error::NotFound),
                )
                &&& a.says(400, "session not found"@)
            },
        },
{
    match registry.delete(id) {
        Ok(d) => Ok(d),
        Err(e) => Err(answer(400, e.message())),
    }
}

/// The answer once it is known whether the sessions that are left were written down.
pub fn session_deleted(result: Result<(), String>) -> (r: Answer)
    ensures
        match result {
            Ok(_) => r == (Answer { status: 204, body: Body::Empty }),
            Err(why) => r.says(400, why@),
        },
{
    match result {
        Ok(_) => Answer { status: 204, body: Body::Empty },
        Err(why) => answer(400, why),
    }
}

// ---------------------------------------------------------------------------------------------
// Lines of a session
// ---------------------------------------------------------------------------------------------

/// How many lines are shown, by what was asked for.
pub open spec fn lines_asked(o: Option<Seq<char>>) -> nat {
    match o {
        Some(s) => match number::unsigned_value(s, 10, u32::MAX as nat) {
            Some(n) if 0 < n <= SCROLLBACK_MAX => n,
            _ => SCROLLBACK_DEFAULT as nat,
        },
        None => SCROLLBACK_DEFAULT as nat,
    }
}

/// How many lines are shown: as many as were asked for, if that is a number within bounds.
pub fn scrollback_lines(o: &Option<String>) -> (r: u32)
    ensures
        r == lines_asked(text::opt_text(*o)),
        1 <= r <= SCROLLBACK_MAX,
{
    match o {
        Some(s) => match number::parse_unsigned(s.as_str(), 10, u32::MAX as u64) {
            Some(n) => if n > 0 && n <= SCROLLBACK_MAX as u64 {
                n as u32
            } else {
                SCROLLBACK_DEFAULT
            },
            None => SCROLLBACK_DEFAULT,
        },
        None => SCROLLBACK_DEFAULT,
    }
}

/// Whether `r` is what comes of a request for the last lines of a session.
pub open spec fn scrollback_asked(
    sessions: Seq<Session>,
    id: Seq<char>,
    lines: Option<Seq<char>>,
    r: Result<Vec<String>, Answer>,
) -> bool {
    match r {
        Ok(args) => registry::has_id(sessions, id) && text::texts(args@) == session::capture_command(
            tmux::tmux_name(id),
            lines_asked(lines) as u32,
        ),
        Err(a) => !registry::has_id(sessions, id) && a.says(404, no_session(id)),
    }
}

/// The command that shows the last lines of a session, or the answer if the session is not there.
pub fn scrollback(registry: &Registry, id: &str, lines: &Option<String>) -> (r: Result<
    Vec<String>,
    Answer,
>)
    requires
        registry.wf(),
    ensures
        scrollback_asked(registry@, id@, text::opt_text(*lines), r),
{
    match registry.get(id) {
        Some(s) => {
            proof {
                let i = choose|i: int| 0 <= i < registry@.len() && registry@[i] == *s;
                assert(registry@[i].id@ == id@);
            }
            Ok(s.capture_tail(scrollback_lines(lines)))
        },
        None => Err(not_there(id)),
    }
}

/// Whether `r` is the answer to a request for the lines of a session.
pub open spec fn lines_answered(result: Result<String, Error>, r: Answer) -> bool {
    match result {
        Ok(lines) => r.says(200, lines@),
        Err(e) => r.says(500, e.text()),
    }
}

/// The answer that shows the lines of a session, or tells why they cannot be shown.
pub fn scrollback_captured(result: Result<String, Error>) -> (r: Answer)
    ensures
        lines_answered(result, r),
{
    match result {
        Ok(lines) => answer(200, lines),
        Err(e) => answer(500, e.message()),
    }
}

// ---------------------------------------------------------------------------------------------
// What requests come to
// ---------------------------------------------------------------------------------------------

/// Without a token in the address, a request is accepted exactly if its header is the word for the
/// token, a space, and the right token.
pub proof fn header_has_to_be_right(token: Seq<char>, header: Seq<char>)
    ensures
        token_in(None, Some(header)) == Some(token) <==> header == "Bearer "@ + token,
        token_in(None, None) is None,
{
    text::prefix_and_rest(header, "Bearer "@, token);
}

/// The text of a header is that of its bytes, one character for each, if all of them are visible
/// characters of ASCII or tabs; one other byte, and it has none.
pub proof fn headers_are_visible(bytes: Seq<u8>, i: int)
    requires
        0 <= i < bytes.len(),
    ensures
        visible_text(bytes) matches Some(t) ==> t.len() == bytes.len() && t[i] == bytes[i] as char && (
        32 <= bytes[i] <= 126 || bytes[i] == 9),
        (forall|j: int| 0 <= j < bytes.len() ==> 32 <= #[trigger] bytes[j] <= 126 || bytes[j] == 9)
            ==> visible_text(bytes) is Some,
{
}

/// A text that is not blank is taken as it stands, with the white space round it, and any other one
/// is not taken.
pub proof fn blank_wishes_do_not_count(s: String, other: Seq<char>)
    ensures
        unless_blank(None, other) == other,
        (exists|i: int| 0 <= i < s@.len() && !text::is_white_space(#[trigger] s@[i]))
            ==> unless_blank(Some(s), other) == s@,
        (forall|i: int| 0 <= i < s@.len() ==> text::is_white_space(#[trigger] s@[i]))
            ==> unless_blank(Some(s), other) == other,
{
}

/// As many lines are shown as are asked for, from 1 to 20000 of them; any other wish, and none at
/// all, comes to 2000.
pub proof fn lines_within_bounds(n: nat, wish: Seq<char>)
    ensures
        lines_asked(Some(number::decimal(n))) == if 1 <= n <= 20_000 {
            n
        } else {
            2000
        },
        number::unsigned_value(wish, 10, 20_000) is None ==> lines_asked(Some(wish)) == 2000,
        number::unsigned_value(wish, 10, 20_000) == Some(n) && n > 0 ==> lines_asked(Some(wish))
            == n,
        lines_asked(None) == 2000,
{
    number::numbers_within_bounds(n, u32::MAX as nat);
}

/// What is said of a session that is not there names it.
pub proof fn missing_session_is_named(id: Seq<char>)
    ensures
        no_session(id) == "no session '"@ + id + "'"@,
{
}

/// A request goes on exactly if the token in its address is the right one, or if it has none there and
/// its header holds the bytes of the word for the token, a space, and the right token. Any other one
/// is answered that it may not.
pub proof fn only_the_right_token_opens(
    token: Seq<char>,
    query: Option<Seq<char>>,
    header: Option<Seq<u8>>,
    r: Option<Answer>,
)
    requires
        auth_answered(token, query, header, r),
    ensures
        r is None <==> match query {
            Some(t) => t == token,
            None => header is Some && visible_text(header->0) == Some("Bearer "@ + token),
        },
        r matches Some(a) ==> a.status == 401 && (a.body matches Body::Text(t) && t@
            == "bad token"@),
{
    if header is Some && visible_text(header->0) is Some {
        header_has_to_be_right(token, visible_text(header->0)->0);
    }
}

/// A session that is asked for is opened under the id that is asked for, in the directory and with the
/// command that are asked for, as they stand; where one of these is blank or missing, in the home
/// directory, or with the command for which nothing else is asked.
pub proof fn opened_as_requested(
    sessions: Seq<Session>,
    default_cmd: Seq<char>,
    req: CreateReq,
    home: Option<Seq<char>>,
    r: Result<Opening, Answer>,
)
    requires
        creation_asked(sessions, default_cmd, req, home, r),
    ensures
        r is Ok <==> session::valid_id(req.id@) && !exists|i: int|
            0 <= i < sessions.len() && (#[trigger] sessions[i]).id@ == req.id@,
        match r {
            Ok(o) => {
                &&& o.id@ == req.id@
                &&& o.cols == 120
                &&& o.rows == 40
                &&& o.cwd@ == if req.cwd is Some && exists|i: int|
                    0 <= i < req.cwd->0@.len() && !text::is_white_space(
                        #[trigger] req.cwd->0@[i],
                    ) {
                    req.cwd->0@
                } else if home is Some {
                    home->0
                } else {
                    "/"@
                }
                &&& o.cmd@ == if req.cmd is Some && exists|i: int|
                    0 <= i < req.cmd->0@.len() && !text::is_white_space(
                        #[trigger] req.cmd->0@[i],
                    ) {
                    req.cmd->0@
                } else {
                    default_cmd
                }
            },
            Err(a) => a.status == 400 && a.body is Text,
        },
{
    registry::refused_or_opened(sessions, req.id@);
    session::ids_that_are_allowed(req.id@);
    if req.cwd is Some {
        blank_wishes_do_not_count(req.cwd->0, seq![]);
        text::blank_is_all_space(req.cwd->0@);
    }
    if req.cmd is Some {
        blank_wishes_do_not_count(req.cmd->0, seq![]);
        text::blank_is_all_space(req.cmd->0@);
    }
}

/// As many of a session's last lines are asked for as are wished, from 1 to 20000 of them, and 2000 if
/// the wish is any other; what is asked, is asked of that session. A session that is not there is
/// answered so.
pub proof fn lines_of_that_session(
    sessions: Seq<Session>,
    id: Seq<char>,
    lines: Option<Seq<char>>,
    r: Result<Vec<String>, Answer>,
    n: nat,
)
    requires
        scrollback_asked(sessions, id, lines, r),
        lines is None || lines->0 == number::decimal(n),
    ensures
        r is Ok <==> exists|i: int| 0 <= i < sessions.len() && (#[trigger] sessions[i]).id@ == id,
        match r {
            Ok(args) => {
                let c = text::texts(args@);
                &&& c.len() == 7
                &&& c[0] == "capture-pane"@
                &&& c[4] == "disbot-"@ + id
                &&& number::signed_value(c[6]) == Some(
                    if lines is Some && 1 <= n <= 20_000 {
                        -(n as int)
                    } else {
                        -2000int
                    },
                )
            },
            Err(a) => a.status == 404 && (a.body matches Body::Text(t) && t@ == "no session '"@ + id
                + "'"@),
        },
{
    let wish = match lines {
        Some(w) => w,
        None => seq![],
    };
    lines_within_bounds(n, wish);
    let asked = lines_asked(lines) as u32;
    session::as_many_lines_as_wished(tmux::tmux_name(id), asked);
    let c = session::capture_command(tmux::tmux_name(id), asked);
    assert(c.take(6)[0] == c[0] && c.take(6)[4] == c[4]);
}

/// The lines of a session are answered as tmux showed them, all of them, whatever they hold; and if
/// tmux did not show them, the reason is.
pub proof fn lines_are_answered_whole(run: tmux::Run, told: Result<String, Error>, r: Answer)
    requires
        session::screen_told(run, told),
        lines_answered(told, r),
    ensures
        match run {
            Ok(out) => if out.success {
                r.status == 200 && (r.body matches Body::Text(t) && t@ == tmux::lossy_text(
                    out.stdout@,
                ))
            } else {
                r.status == 500 && (r.body matches Body::Text(t) && t@ == "capture-pane failed: "@
                    + text::trimmed(tmux::lossy_text(out.stderr@)))
            },
            Err(why) => r.status == 500 && (r.body matches Body::Text(t) && t@
                == "spawn tmux capture-pane: "@ + why@),
        },
{
    session::screens_are_taken_whole(run, told);
}

/// A session that was created is answered with its id, its directory, its command and the time of its
/// creation; one that was not, with the reason.
pub proof fn created_session_is_answered(result: Result<&Session, String>, r: Answer)
    requires
        creation_answered(result, r),
    ensures
        match result {
            Ok(s) => r.status == 201 && (r.body matches Body::Session(m) && m.id == s.id && m.cwd
                == s.cwd && m.cmd == s.cmd && m.created_at == s.created_at),
            Err(why) => r.status == 400 && (r.body matches Body::Text(t) && t@ == why@),
        },
{
    match result {
        Ok(s) => registry::what_is_written_down(seq![*s], 0),
        Err(_) => {},
    }
}

} // verus!
