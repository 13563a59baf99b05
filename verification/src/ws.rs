//! A browser that is connected to a session.

use vstd::prelude::*;
use crate::api;
use crate::api::{Answer, Body};
use crate::forward::Received;
use crate::registry;
use crate::registry::Registry;
use crate::session;
use crate::session::{Inner, Session, Typing, DEFAULT_COLS, DEFAULT_ROWS};
use crate::text;

verus! {

/// What a browser says when it connects.
#[derive(Debug)]
pub struct WsParams {
    pub token: String,
    pub id: String,
    pub cols: Option<u16>,
    pub rows: Option<u16>,
}

/// What a browser says once it is connected.
#[derive(Debug)]
pub enum ClientMsg {
    /// Type this.
    Input { d: String },
    /// The window has this size now.
    Resize { c: u16, r: u16 },
}

/// A size that was asked for, or else `other`.
pub open spec fn size_or(o: Option<u16>, other: u16) -> u16 {
    match o {
        Some(n) => n,
        None => other,
    }
}

/// Whether `r` is what comes of a browser's wish to connect, with these sessions in the registry.
pub open spec fn connecting(
    sessions: Seq<Session>,
    token: Seq<char>,
    params: WsParams,
    r: Result<Inner, Answer>,
) -> bool {
    if params.token@ != token {
        r matches Err(a) && a.says(401, "bad token"@)
    } else if !registry::has_id(sessions, params.id@) {
        r matches Err(a) && a.says(404, api::no_session(params.id@))
    } else {
        r == Ok::<Inner, Answer>(
            Inner {
                cols: size_or(params.cols, DEFAULT_COLS),
                rows: size_or(params.rows, DEFAULT_ROWS),
            },
        )
    }
}

/// The size of the window of a browser that may connect to the session it names, or the answer if
/// it may not, because it does not bring the right token, or because the session is not there.
pub fn ws_handler(registry: &Registry, token: &str, params: &WsParams) -> (r: Result<Inner, Answer>)
    ensures
        connecting(registry@, token@, *params, r),
{
    if !text::same(params.token.as_str(), token) {
        return Err(Answer { status: 401, body: Body::Text("bad token".to_string()) });
    }
    if !registry.contains(params.id.as_str()) {
        return Err(api::not_there(params.id.as_str()));
    }
    let cols = match params.cols {
        Some(n) => n,
        None => DEFAULT_COLS,
    };
    let rows = match params.rows {
        Some(n) => n,
        None => DEFAULT_ROWS,
    };
    Ok(Inner { cols, rows })
}

// ---------------------------------------------------------------------------------------------
// From the first moment to the last
// ---------------------------------------------------------------------------------------------

/// What a connection waits for.
#[derive(Clone, Copy, PartialEq, Eq, Structural, Debug)]
pub enum Waiting {
    /// The viewport that stands for the browser's window.
    Viewport,
    /// The snapshot of the session.
    Snapshot,
    /// That the snapshot is sent.
    Sending,
    /// The end of the session's output, or of what the browser says.
    Output,
    /// That the viewport is removed.
    Removal,
    /// Nothing any more.
    Nothing,
}

/// A connection of a browser to a session.
#[derive(Debug)]
pub struct Connection {
    /// The size of the browser's window when it connected.
    pub cols: u16,
    pub rows: u16,
    /// The viewport that stands for the browser's window, once there is one.
    pub viewport: u64,
    /// The snapshot that is sent, once it was taken.
    pub snapshot: Vec<u8>,
    pub waiting: Waiting,
}

/// What has to be done for a connection to go on.
#[derive(Debug)]
pub enum ConnectionAction {
    /// Add a viewport of this size to the session.
    AddViewport { cols: u16, rows: u16 },
    /// Take a snapshot of the session.
    TakeSnapshot,
    /// Send these bytes to this browser, and to no other.
    Send(Vec<u8>),
    /// Pass the session's output on to the browser, and do what the browser says, until one of the
    /// two comes to its end.
    PassOn,
    /// Remove the viewport from the session.
    RemoveViewport(u64),
    /// Nothing; the connection is over.
    Done,
}

/// How it went.
#[derive(Debug)]
pub enum ConnectionReply {
    /// The viewport that was added.
    Added(u64),
    /// The snapshot, or in words why there is none.
    Taken(Result<Vec<u8>, String>),
    /// Whether the bytes could be sent.
    Sent(bool),
    /// The output, or what the browser says, came to its end.
    Ended,
    /// The viewport is removed.
    Removed,
}

impl Connection {
    /// Whether an action is the one that a connection waits for.
    pub open spec fn asks_for(self, a: ConnectionAction) -> bool {
        match self.waiting {
            Waiting::Viewport => a == (ConnectionAction::AddViewport {
                cols: self.cols,
                rows: self.rows,
            }),
            Waiting::Snapshot => a is TakeSnapshot,
            Waiting::Sending => a matches ConnectionAction::Send(b) && b@ == self.snapshot@,
            Waiting::Output => a is PassOn,
            Waiting::Removal => a == ConnectionAction::RemoveViewport(self.viewport),
            Waiting::Nothing => a is Done,
        }
    }

    /// Whether a connection goes on as `next` when it learns how its action went.
    ///
    /// A snapshot that holds something is sent before anything else. Without one, the output is
    /// passed on at once. If the snapshot cannot be sent, the output is not passed on at all. At
    /// the end the viewport is removed. A reply to something else than what was asked changes
    /// nothing.
    pub open spec fn leads_to(self, reply: ConnectionReply, next: Connection) -> bool {
        match (self.waiting, reply) {
            (Waiting::Viewport, ConnectionReply::Added(v)) => next == (Connection {
                viewport: v,
                waiting: Waiting::Snapshot,
                ..self
            }),
            (Waiting::Snapshot, ConnectionReply::Taken(Ok(b))) => if b@.len() > 0 {
                next == (Connection { snapshot: b, waiting: Waiting::Sending, ..self })
            } else {
                next == (Connection { waiting: Waiting::Output, ..self })
            },
            (Waiting::Snapshot, ConnectionReply::Taken(Err(_))) => next == (Connection {
                waiting: Waiting::Output,
                ..self
            }),
            (Waiting::Sending, ConnectionReply::Sent(sent)) => next == (Connection {
                waiting: if sent {
                    Waiting::Output
                } else {
                    Waiting::Removal
                },
                ..self
            }),
            (Waiting::Output, ConnectionReply::Ended) => next == (Connection {
                waiting: Waiting::Removal,
                ..self
            }),
            (Waiting::Removal, ConnectionReply::Removed) => next == (Connection {
                waiting: Waiting::Nothing,
                ..self
            }),
            _ => next == self,
        }
    }

    /// What has to be done for the connection to go on.
    pub fn action(&self) -> (a: ConnectionAction)
        ensures
            self.asks_for(a),
    {
        match self.waiting {
            Waiting::Viewport => ConnectionAction::AddViewport {
                cols: self.cols,
                rows: self.rows,
            },
            Waiting::Snapshot => ConnectionAction::TakeSnapshot,
            Waiting::Sending => ConnectionAction::Send(self.snapshot.clone()),
            Waiting::Output => ConnectionAction::PassOn,
            Waiting::Removal => ConnectionAction::RemoveViewport(self.viewport),
            Waiting::Nothing => ConnectionAction::Done,
        }
    }

    /// Takes in how the action went.
    pub fn step(self, reply: ConnectionReply) -> (next: Connection)
        ensures
            self.leads_to(reply, next),
    {
        match (self.waiting, reply) {
            (Waiting::Viewport, ConnectionReply::Added(v)) => Connection {
                viewport: v,
                waiting: Waiting::Snapshot,
                ..self
            },
            (Waiting::Snapshot, ConnectionReply::Taken(taken)) => match taken {
                Ok(b) => if b.len() > 0 {
                    Connection { snapshot: b, waiting: Waiting::Sending, ..self }
                } else {
                    Connection { waiting: Waiting::Output, ..self }
                },
                Err(_) => Connection { waiting: Waiting::Output, ..self },
            },
            (Waiting::Sending, ConnectionReply::Sent(sent)) => if sent {
                Connection { waiting: Waiting::Output, ..self }
            } else {
                Connection { waiting: Waiting::Removal, ..self }
            },
            (Waiting::Output, ConnectionReply::Ended) => Connection {
                waiting: Waiting::Removal,
                ..self
            },
            (Waiting::Removal, ConnectionReply::Removed) => Connection {
                waiting: Waiting::Nothing,
                ..self
            },
            _ => self,
        }
    }
}

/// A connection at its start, of a browser with a window of this size.
pub fn handle(init_cols: u16, init_rows: u16) -> (c: Connection)
    ensures
        c.waiting is Viewport,
        c.cols == init_cols,
        c.rows == init_rows,
{
    Connection {
        cols: init_cols,
        rows: init_rows,
        viewport: 0,
        snapshot: Vec::new(),
        waiting: Waiting::Viewport,
    }
}

/// Whether a reply is one to what a connection waits for.
pub open spec fn connection_answers(w: Waiting, reply: ConnectionReply) -> bool {
    match w {
        Waiting::Viewport => reply is Added,
        Waiting::Snapshot => reply is Taken,
        Waiting::Sending => reply is Sent,
        Waiting::Output => reply is Ended,
        Waiting::Removal => reply is Removed,
        Waiting::Nothing => false,
    }
}

/// Whether a state of a connection is followed by the next one, given the answer to what it asked
/// for.
pub open spec fn connection_step_at(
    trace: Seq<Connection>,
    replies: Seq<ConnectionReply>,
    k: int,
) -> bool {
    connection_answers(trace[k].waiting, replies[k]) && trace[k].leads_to(replies[k], trace[k + 1])
}

/// A connection from its start: its states, and the answer to what was asked for at each of them but
/// the last. One answer stands for one thing that was done.
pub open spec fn is_connection(trace: Seq<Connection>, replies: Seq<ConnectionReply>) -> bool {
    &&& trace.len() == replies.len() + 1
    &&& trace[0].waiting is Viewport
    &&& forall|k: int|
        0 <= k < replies.len() ==> #[trigger] connection_step_at(trace, replies, k)
}

/// How much of a connection lies behind.
pub open spec fn steps_behind(w: Waiting) -> nat {
    match w {
        Waiting::Viewport => 0,
        Waiting::Snapshot => 1,
        Waiting::Sending => 2,
        Waiting::Output => 3,
        Waiting::Removal => 4,
        Waiting::Nothing => 5,
    }
}

/// A connection that gets answers comes to its end.
pub proof fn connections_end(c: Connection, reply: ConnectionReply, next: Connection)
    requires
        connection_answers(c.waiting, reply),
        c.leads_to(reply, next),
    ensures
        steps_behind(c.waiting) < steps_behind(next.waiting) <= 5,
{
}

proof fn lemma_connection(trace: Seq<Connection>, replies: Seq<ConnectionReply>, k: int)
    requires
        is_connection(trace, replies),
        0 < k < trace.len(),
    ensures
        !(trace[k].waiting is Viewport),
        replies[0] == ConnectionReply::Added(trace[k].viewport),
        trace[k].waiting is Snapshot <==> k == 1,
        k > 1 ==> replies[1] is Taken,
        trace[k].waiting is Sending <==> k == 2 && (replies[1] matches ConnectionReply::Taken(Ok(b))
            && b@.len() > 0),
        trace[k].waiting is Sending ==> replies[1] == ConnectionReply::Taken(
            Ok(trace[k].snapshot),
        ),
    decreases k,
{
    let i = k - 1;
    assert(connection_step_at(trace, replies, i));
    if i > 0 {
        lemma_connection(trace, replies, i);
    }
}

/// A connection that is over has added one viewport, of the size that the browser's window had at
/// first, and has removed that one, once, whichever way it came to its end.
pub proof fn viewport_is_removed(trace: Seq<Connection>, replies: Seq<ConnectionReply>)
    requires
        is_connection(trace, replies),
        trace.last().waiting is Nothing,
    ensures
        replies.len() >= 3,
        trace[0].asks_for(
            ConnectionAction::AddViewport { cols: trace[0].cols, rows: trace[0].rows },
        ),
        replies[0] is Added,
        forall|k: int|
            0 <= k < replies.len() ==> ((#[trigger] trace[k]).waiting is Viewport <==> k == 0),
        forall|k: int|
            0 <= k < replies.len() ==> ((#[trigger] trace[k]).waiting is Removal <==> k
                == replies.len() - 1),
        trace[replies.len() - 1].asks_for(ConnectionAction::RemoveViewport(replies[0]->Added_0)),
{
    let n = replies.len() as int;
    if n > 0 {
        assert(connection_step_at(trace, replies, 0));
        assert(connection_step_at(trace, replies, n - 1));
        lemma_connection(trace, replies, n);
        if n > 1 {
            lemma_connection(trace, replies, n - 1);
        }
    }
    assert forall|k: int| 0 <= k < n implies ((#[trigger] trace[k]).waiting is Viewport <==> k
        == 0) && (trace[k].waiting is Removal <==> k == n - 1) by {
        assert(connection_step_at(trace, replies, k));
        if k > 0 {
            lemma_connection(trace, replies, k);
        }
        if trace[k].waiting is Removal && k < n - 1 {
            assert(connection_step_at(trace, replies, k + 1));
        }
    }
}

/// A snapshot that holds something is sent once, as it was taken, before any output is passed on; if
/// it cannot be sent, no output is. A snapshot that is empty or could not be taken is not sent, and
/// the output is passed on.
pub proof fn snapshot_comes_first(trace: Seq<Connection>, replies: Seq<ConnectionReply>, k: int)
    requires
        is_connection(trace, replies),
        trace.last().waiting is Nothing,
        0 <= k < trace.len(),
    ensures
        replies[1] is Taken,
        match replies[1]->Taken_0 {
            Ok(b) if b@.len() > 0 => {
                &&& trace[k].waiting is Sending <==> k == 2
                &&& trace[2].asks_for(ConnectionAction::Send(b))
                &&& replies[2] is Sent
                &&& trace[k].waiting is Output <==> k == 3 && replies[2]->Sent_0
            },
            _ => {
                &&& !(trace[k].waiting is Sending)
                &&& trace[k].waiting is Output <==> k == 2
            },
        },
{
    viewport_is_removed(trace, replies);
    let n = replies.len() as int;
    assert(connection_step_at(trace, replies, 0));
    assert(connection_step_at(trace, replies, 1));
    assert(connection_step_at(trace, replies, 2));
    lemma_connection(trace, replies, 1);
    lemma_connection(trace, replies, 2);
    if n > 3 {
        assert(connection_step_at(trace, replies, 3));
    }
    if n > 4 {
        assert(connection_step_at(trace, replies, 4));
    }
    if k > 0 {
        lemma_connection(trace, replies, k);
    }
}

// ---------------------------------------------------------------------------------------------
// While output is passed on
// ---------------------------------------------------------------------------------------------

/// What is done about something that a browser has said.
#[derive(Debug)]
pub enum ClientAction {
    /// Type something.
    Type(Typing),
    /// Give the viewport that stands for the browser's window this size.
    UpdateViewport { viewport: u64, cols: u16, rows: u16 },
}

/// Whether `a` is what is done about something that a browser has said.
pub open spec fn done_about(
    tmux_name: Seq<char>,
    viewport: u64,
    msg: ClientMsg,
    a: ClientAction,
) -> bool {
    match msg {
        ClientMsg::Input { d } => a matches ClientAction::Type(t) && t.starts(
            tmux_name,
            vstd::utf8::encode_utf8(d@),
        ),
        ClientMsg::Resize { c, r } => a == (ClientAction::UpdateViewport {
            viewport,
            cols: c,
            rows: r,
        }),
    }
}

/// What is done about something that was said by the browser for whose window `viewport` stands.
pub fn handle_message(s: &Session, viewport: u64, msg: ClientMsg) -> (a: ClientAction)
    ensures
        done_about(s.tmux_name@, viewport, msg, a),
{
    match msg {
        ClientMsg::Input { d } => {
            let data = text::utf8_bytes(d.as_str());
            ClientAction::Type(s.send_input(data.as_slice()))
        },
        ClientMsg::Resize { c, r } => ClientAction::UpdateViewport { viewport, cols: c, rows: r },
    }
}

/// Whether a browser goes on getting a session's output: until the output comes to its end, even if
/// some of it was missed.
pub fn output_goes_on(e: Received) -> (r: bool)
    ensures
        r == !(e is Closed),
{
    match e {
        Received::Closed => false,
        _ => true,
    }
}

/// A size that is asked for is taken, whatever it is.
pub proof fn sizes_asked_for_are_taken(n: u16, other: u16)
    ensures
        size_or(Some(n), other) == n,
        size_or(None, other) == other,
{
}

/// A browser may connect exactly if it brings the right token and names a session that is there; the
/// token is looked at first. Its window has the size that it names, in each direction, or 120 columns
/// and 40 rows.
pub proof fn right_browsers_connect(
    sessions: Seq<Session>,
    token: Seq<char>,
    params: WsParams,
    r: Result<Inner, Answer>,
)
    requires
        connecting(sessions, token, params, r),
    ensures
        ({
            let there = exists|i: int|
                0 <= i < sessions.len() && (#[trigger] sessions[i]).id@ == params.id@;
            match r {
                Ok(size) => {
                    &&& params.token@ == token
                    &&& there
                    &&& size.cols == if params.cols is Some {
                        params.cols->0
                    } else {
                        120
                    }
                    &&& size.rows == if params.rows is Some {
                        params.rows->0
                    } else {
                        40
                    }
                },
                Err(a) => {
                    &&& params.token@ != token || !there
                    &&& a.status == if params.token@ != token {
                        401u16
                    } else {
                        404u16
                    }
                    &&& a.body matches Body::Text(t)
                    &&& t@ == if params.token@ != token {
                        "bad token"@
                    } else {
                        "no session '"@ + params.id@ + "'"@
                    }
                },
            }
        }),
{
}

/// What a browser types is typed into the session byte for byte: the bytes are its text in UTF-8, all
/// of it, and they go to that session. A size goes to the browser's own viewport, as it is.
pub proof fn what_is_said_is_done(
    tmux_name: Seq<char>,
    viewport: u64,
    msg: ClientMsg,
    a: ClientAction,
)
    requires
        done_about(tmux_name, viewport, msg, a),
    ensures
        match msg {
            ClientMsg::Input { d } => {
                &&& a matches ClientAction::Type(t)
                &&& t.given == 0
                &&& vstd::utf8::valid_utf8(session::typed(session::commands(t.commands@)))
                &&& vstd::utf8::decode_utf8(session::typed(session::commands(t.commands@))) == d@
                &&& forall|k: int|
                    0 <= k < t.commands@.len() ==> {
                        let args = text::texts((#[trigger] t.commands@[k])@);
                        args.len() > 4 && args[0] == "send-keys"@ && args[2] == tmux_name
                    }
            },
            ClientMsg::Resize { c, r } => {
                &&& a matches ClientAction::UpdateViewport { viewport: v, cols, rows }
                &&& v == viewport
                &&& cols == c
                &&& rows == r
            },
        },
{
    match msg {
        ClientMsg::Input { d } => {
            let t = a->Type_0;
            let b = vstd::utf8::encode_utf8(d@);
            let all = session::keys_commands(tmux_name, b);
            session::input_is_typed(tmux_name, b);
            session::input_goes_to_its_session(tmux_name, b);
            vstd::utf8::encode_utf8_valid_utf8(d@);
            vstd::utf8::encode_utf8_decode_utf8(d@);
            assert forall|k: int| 0 <= k < t.commands@.len() implies {
                let args = text::texts((#[trigger] t.commands@[k])@);
                args.len() > 4 && args[0] == "send-keys"@ && args[2] == tmux_name
            } by {
                let args = text::texts(t.commands@[k]@);
                assert(session::commands(t.commands@)[k] == args);
                assert(all[k] == args);
                assert(args.take(4)[0] == args[0] && args.take(4)[2] == args[2]);
            }
        },
        _ => {},
    }
}

} // verus!
