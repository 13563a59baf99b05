//! Sessions: a terminal that tmux runs under an id, and what is done with it.

use vstd::prelude::*;
use crate::error::Error;
use crate::number;
use crate::text;
use crate::text::around;
use crate::tmux;
use crate::tmux::{command, Run};

verus! {

/// How many pieces of output a subscriber may lag behind.
pub const BROADCAST_CAP: usize = 1024;

/// How many columns a session's window has when nothing else is asked for.
pub const DEFAULT_COLS: u16 = 120;

/// How many rows a session's window has when nothing else is asked for.
pub const DEFAULT_ROWS: u16 = 40;

/// How many bytes of output are read at a time.
pub const READ_CHUNK: usize = 16384;

/// How many bytes of input go to tmux in one command.
pub const KEYS_CHUNK: usize = 256;

// ---------------------------------------------------------------------------------------------
// Ids
// ---------------------------------------------------------------------------------------------

/// Whether an id has one byte at least and 64 at most.
pub open spec fn id_length_ok(id: Seq<char>) -> bool {
    1 <= text::utf8_len(id) <= 64
}

/// Whether a character may stand in an id.
pub open spec fn is_id_char(c: char) -> bool {
    'a' <= c <= 'z' || 'A' <= c <= 'Z' || '0' <= c <= '9' || c == '-' || c == '_'
}

/// Whether an id holds only characters that may stand in one.
pub open spec fn id_chars_ok(id: Seq<char>) -> bool {
    forall|i: int| 0 <= i < id.len() ==> is_id_char(#[trigger] id[i])
}

/// Whether an id is one that a session can have.
pub open spec fn valid_id(id: Seq<char>) -> bool {
    id_length_ok(id) && id_chars_ok(id)
}

/// Accepts an id that a session can have. The length is looked at first.
pub fn validate_id(id: &str) -> (r: Result<(), Error>)
    ensures
        match r {
            Ok(()) => valid_id(id@),
            Err(Error::IdLength) => !id_length_ok(id@),
            Err(Error::IdCharacters) => id_length_ok(id@) && !id_chars_ok(id@),
            Err(_) => false,
        },
{
    let n = text::byte_len(id);
    if n == 0 || n > 64 {
        return Err(Error::IdLength);
    }
    let v = text::chars_of(id);
    let mut i: usize = 0;
    while i < v.len()
        invariant
            i <= v@.len(),
            v@ == id@,
            id_length_ok(id@),
            forall|j: int| 0 <= j < i ==> is_id_char(#[trigger] id@[j]),
        decreases v@.len() - i,
    {
        let c = v[i];
        if !(('a' <= c && c <= 'z') || ('A' <= c && c <= 'Z') || ('0' <= c && c <= '9') || c == '-'
            || c == '_') {
            assert(!is_id_char(id@[i as int]));
            return Err(Error::IdCharacters);
        }
        i += 1;
    }
    Ok(())
}

/// The path of the socket that a session's output comes through.
pub open spec fn socket_path(id: Seq<char>) -> Seq<char> {
    "/tmp/disbot-"@ + id + ".sock"@
}

/// The path of the socket that a session's output comes through, as a string.
pub fn socket_of(id: &str) -> (r: String)
    ensures
        r@ == socket_path(id@),
{
    around("/tmp/disbot-", id, ".sock")
}

/// Different ids have different sockets.
pub proof fn sockets_differ(a: Seq<char>, b: Seq<char>)
    ensures
        socket_path(a) == socket_path(b) <==> a == b,
{
    let p = "/tmp/disbot-"@.len() as int;
    let q = ".sock"@.len() as int;
    assert(socket_path(a).subrange(p, socket_path(a).len() - q) =~= a);
    assert(socket_path(b).subrange(p, socket_path(b).len() - q) =~= b);
}

/// A session with a valid id has a name that tmux lists in a line of its own.
pub proof fn valid_name_fits_a_line(id: Seq<char>)
    requires
        valid_id(id),
    ensures
        tmux::fits_a_line(tmux::tmux_name(id)),
{
    let name = tmux::tmux_name(id);
    let p = "disbot-"@;
    reveal_strlit("disbot-");
    assert forall|i: int| 0 <= i < name.len() implies #[trigger] name[i] != '\n' && name[i]
        != '\r' by {
        if i >= p.len() {
            assert(name[i] == id[i - p.len()]);
            assert(is_id_char(id[i - p.len()]));
        } else {
            assert(name[i] == p[i]);
        }
    }
}

// ---------------------------------------------------------------------------------------------
// A session
// ---------------------------------------------------------------------------------------------

/// The size of a session's window, as it was asked for last.
#[derive(Clone, Copy, Debug)]
pub struct Inner {
    pub cols: u16,
    pub rows: u16,
}

/// A session that tmux runs.
#[derive(Debug)]
pub struct Session {
    pub id: String,
    pub cwd: String,
    pub cmd: String,
    pub created_at: u64,
    pub tmux_name: String,
    pub inner: Inner,
}

impl Clone for Session {
    fn clone(&self) -> (r: Session)
        ensures
            r == *self,
    {
        Session {
            id: self.id.clone(),
            cwd: self.cwd.clone(),
            cmd: self.cmd.clone(),
            created_at: self.created_at,
            tmux_name: self.tmux_name.clone(),
            inner: self.inner,
        }
    }
}

impl Session {
    /// A session has an id that is allowed, and its name in tmux comes from the id.
    pub open spec fn wf(self) -> bool {
        valid_id(self.id@) && self.tmux_name@ == tmux::tmux_name(self.id@)
    }
}

// ---------------------------------------------------------------------------------------------
// Opening a session
// ---------------------------------------------------------------------------------------------

/// How far the opening of a session has come: what it waits for.
#[derive(Clone, Copy, PartialEq, Eq, Structural, Debug)]
pub enum Stage {
    /// Whether the directory is there.
    Directory,
    /// The socket that the output will come through.
    Bind,
    /// Whether tmux holds the session already.
    HasSession,
    /// When the session that tmux holds was created.
    CreatedAt,
    /// That tmux reports focus events.
    SetOption,
    /// A new session of tmux.
    NewSession,
    /// What time it is.
    Clock,
    /// That an earlier pipe of the output is gone.
    ResetPipe,
    /// The pipe of the output into the socket.
    Pipe,
}

/// The opening of a session, under way.
#[derive(Debug)]
pub struct Opening {
    pub id: String,
    pub cwd: String,
    pub cmd: String,
    pub cols: u16,
    pub rows: u16,
    pub tmux_name: String,
    pub sock_path: String,
    pub created_at: u64,
    pub stage: Stage,
}

/// What has to be done for an opening to go on.
#[derive(Debug)]
pub enum OpenAction {
    /// See whether there is a directory at the path.
    CheckDirectory(String),
    /// Remove what is at the path, then listen on a socket there.
    Bind(String),
    /// Run tmux with these arguments.
    Tmux(Vec<String>),
    /// See what time it is.
    ReadClock,
}

/// How it went.
#[derive(Debug)]
pub enum OpenReply {
    Directory(bool),
    Bound(Result<(), String>),
    Ran(Run),
    Clock(u64),
}

/// What came of a step of an opening.
#[derive(Debug)]
pub enum Progress {
    /// It goes on.
    Next(Opening),
    /// The session is open.
    Opened(Session),
    /// It failed.
    Failed(Error),
}

/// The command that asks whether tmux holds a session.
pub open spec fn has_session_command(tmux_name: Seq<char>) -> Seq<Seq<char>> {
    seq!["has-session"@, "-t"@, tmux_name]
}

/// The command that has tmux report focus events.
pub open spec fn focus_command() -> Seq<Seq<char>> {
    seq!["set-option"@, "-g"@, "focus-events"@, "on"@]
}

/// The command that has tmux run `cmd` in a new session, in the directory and in a window of the
/// size that were asked for.
pub open spec fn new_session_command(
    tmux_name: Seq<char>,
    cwd: Seq<char>,
    cmd: Seq<char>,
    cols: u16,
    rows: u16,
) -> Seq<Seq<char>> {
    seq![
        "new-session"@,
        "-d"@,
        "-s"@,
        tmux_name,
        "-c"@,
        cwd,
        "-x"@,
        number::decimal(cols as nat),
        "-y"@,
        number::decimal(rows as nat),
        cmd,
    ]
}

/// The command that ends the pipe of a session's output.
pub open spec fn reset_pipe_command(tmux_name: Seq<char>) -> Seq<Seq<char>> {
    seq!["pipe-pane"@, "-t"@, tmux_name]
}

/// The command that pipes a session's output into a socket.
pub open spec fn pipe_command(tmux_name: Seq<char>, sock_path: Seq<char>) -> Seq<Seq<char>> {
    seq!["pipe-pane"@, "-t"@, tmux_name, "-O"@, "exec nc -U "@ + sock_path]
}

impl Opening {
    /// The command that an opening gives to tmux at a stage that needs one.
    pub open spec fn command(self) -> Seq<Seq<char>> {
        match self.stage {
            Stage::HasSession => has_session_command(self.tmux_name@),
            Stage::CreatedAt => tmux::created_at_command(self.tmux_name@),
            Stage::SetOption => focus_command(),
            Stage::NewSession => new_session_command(
                self.tmux_name@,
                self.cwd@,
                self.cmd@,
                self.cols,
                self.rows,
            ),
            Stage::ResetPipe => reset_pipe_command(self.tmux_name@),
            Stage::Pipe => pipe_command(self.tmux_name@, self.sock_path@),
            _ => seq![],
        }
    }

    /// Whether an action is the one that an opening waits for.
    pub open spec fn asks_for(self, a: OpenAction) -> bool {
        match self.stage {
            Stage::Directory => a matches OpenAction::CheckDirectory(p) && p@ == self.cwd@,
            Stage::Bind => a matches OpenAction::Bind(p) && p@ == self.sock_path@,
            Stage::Clock => a is ReadClock,
            _ => a matches OpenAction::Tmux(args) && text::texts(args@) == self.command(),
        }
    }

    /// The session that an opening ends in.
    pub open spec fn session(self) -> Session {
        Session {
            id: self.id,
            cwd: self.cwd,
            cmd: self.cmd,
            created_at: self.created_at,
            tmux_name: self.tmux_name,
            inner: Inner { cols: self.cols, rows: self.rows },
        }
    }

    /// Whether the names in an opening come from an id that is allowed.
    pub open spec fn wf(self) -> bool {
        &&& valid_id(self.id@)
        &&& self.tmux_name@ == tmux::tmux_name(self.id@)
        &&& self.sock_path@ == socket_path(self.id@)
    }

    /// Whether `p` is what comes of an opening when it learns how its action went.
    ///
    /// The directory has to be there and the socket has to be bound. A session that tmux holds
    /// already is taken over, with the time of its creation if tmux tells it; otherwise tmux has
    /// to make a new one. Then the output is piped into the socket. Whether focus events could be
    /// switched on, and whether there was an earlier pipe to end, makes no difference. A reply to
    /// something else than what was asked changes nothing.
    pub open spec fn leads_to(self, reply: OpenReply, p: Progress) -> bool {
        match (self.stage, reply) {
            (Stage::Directory, OpenReply::Directory(there)) => if there {
                p == Progress::Next(Opening { stage: Stage::Bind, ..self })
            } else {
                p matches Progress::Failed(Error::NoDirectory(cwd)) && cwd@ == self.cwd@
            },
            (Stage::Bind, OpenReply::Bound(bound)) => match bound {
                Ok(_) => p == Progress::Next(Opening { stage: Stage::HasSession, ..self }),
                Err(why) => p matches Progress::Failed(Error::Bind { path, cause }) && path@
                    == self.sock_path@ && cause@ == why@,
            },
            (Stage::HasSession, OpenReply::Ran(run)) => p == Progress::Next(
                Opening {
                    stage: if tmux::failure(self.command(), run) is None {
                        Stage::CreatedAt
                    } else {
                        Stage::SetOption
                    },
                    ..self
                },
            ),
            (Stage::CreatedAt, OpenReply::Ran(run)) => match tmux::created_at_in(run) {
                Some(t) => p == Progress::Next(
                    Opening { stage: Stage::ResetPipe, created_at: t as u64, ..self },
                ),
                None => p == Progress::Next(Opening { stage: Stage::Clock, ..self }),
            },
            (Stage::SetOption, OpenReply::Ran(_)) => p == Progress::Next(
                Opening { stage: Stage::NewSession, ..self },
            ),
            (Stage::NewSession, OpenReply::Ran(run)) => match tmux::failure(self.command(), run) {
                None => p == Progress::Next(Opening { stage: Stage::Clock, ..self }),
                Some(why) => p matches Progress::Failed(Error::Step { step, cause }) && step@
                    == "tmux new-session"@ && cause@ == why,
            },
            (Stage::Clock, OpenReply::Clock(now)) => p == Progress::Next(
                Opening { stage: Stage::ResetPipe, created_at: now, ..self },
            ),
            (Stage::ResetPipe, OpenReply::Ran(_)) => p == Progress::Next(
                Opening { stage: Stage::Pipe, ..self },
            ),
            (Stage::Pipe, OpenReply::Ran(run)) => match tmux::failure(self.command(), run) {
                None => p == Progress::Opened(self.session()),
                Some(why) => p matches Progress::Failed(Error::Step { step, cause }) && step@
                    == "tmux pipe-pane"@ && cause@ == why,
            },
            _ => p == Progress::Next(self),
        }
    }

    /// The command for tmux at the stage that an opening is at.
    fn tmux_args(&self) -> (r: Vec<String>)
        requires
            !(self.stage is Directory),
            !(self.stage is Bind),
            !(self.stage is Clock),
        ensures
            text::texts(r@) == self.command(),
    {
        let name = self.tmux_name.as_str();
        let r = match self.stage {
            Stage::HasSession => command(&["has-session", "-t", name]),
            Stage::CreatedAt => tmux::ask_created_at(name),
            Stage::SetOption => command(&["set-option", "-g", "focus-events", "on"]),
            Stage::NewSession => {
                let cols = number::write_decimal(self.cols as u64);
                let rows = number::write_decimal(self.rows as u64);
                command(
                    &[
                        "new-session",
                        "-d",
                        "-s",
                        name,
                        "-c",
                        self.cwd.as_str(),
                        "-x",
                        cols.as_str(),
                        "-y",
                        rows.as_str(),
                        self.cmd.as_str(),
                    ],
                )
            },
            Stage::ResetPipe => command(&["pipe-pane", "-t", name]),
            _ => {
                let mut pipe = "exec nc -U ".to_string();
                pipe.append(self.sock_path.as_str());
                command(&["pipe-pane", "-t", name, "-O", pipe.as_str()])
            },
        };
        assert(text::texts(r@) =~= self.command());
        r
    }

    /// What has to be done for the opening to go on.
    pub fn action(&self) -> (r: OpenAction)
        ensures
            self.asks_for(r),
    {
        match self.stage {
            Stage::Directory => OpenAction::CheckDirectory(self.cwd.clone()),
            Stage::Bind => OpenAction::Bind(self.sock_path.clone()),
            Stage::Clock => OpenAction::ReadClock,
            _ => OpenAction::Tmux(self.tmux_args()),
        }
    }

    /// Takes in how the action went.
    pub fn step(self, reply: OpenReply) -> (r: Progress)
        ensures
            self.leads_to(reply, r),
    {
        match (self.stage, reply) {
            (Stage::Directory, OpenReply::Directory(there)) => if there {
                Progress::Next(Opening { stage: Stage::Bind, ..self })
            } else {
                Progress::Failed(Error::NoDirectory(self.cwd))
            },
            (Stage::Bind, OpenReply::Bound(bound)) => match bound {
                Ok(_) => Progress::Next(Opening { stage: Stage::HasSession, ..self }),
                Err(cause) => Progress::Failed(Error::Bind { path: self.sock_path, cause }),
            },
            (Stage::HasSession, OpenReply::Ran(run)) => {
                let args = self.tmux_args();
                match tmux::tmux(&args, &run) {
                    Ok(()) => Progress::Next(Opening { stage: Stage::CreatedAt, ..self }),
                    Err(_) => Progress::Next(Opening { stage: Stage::SetOption, ..self }),
                }
            },
            (Stage::CreatedAt, OpenReply::Ran(run)) => match tmux::session_created_at(&run) {
                Some(t) => Progress::Next(
                    Opening { stage: Stage::ResetPipe, created_at: t, ..self },
                ),
                None => Progress::Next(Opening { stage: Stage::Clock, ..self }),
            },
            (Stage::SetOption, OpenReply::Ran(_)) => Progress::Next(
                Opening { stage: Stage::NewSession, ..self },
            ),
            (Stage::NewSession, OpenReply::Ran(run)) => {
                let args = self.tmux_args();
                match tmux::tmux_step("tmux new-session", &args, &run) {
                    Ok(()) => Progress::Next(Opening { stage: Stage::Clock, ..self }),
                    Err(e) => Progress::Failed(e),
                }
            },
            (Stage::Clock, OpenReply::Clock(now)) => Progress::Next(
                Opening { stage: Stage::ResetPipe, created_at: now, ..self },
            ),
            (Stage::ResetPipe, OpenReply::Ran(_)) => Progress::Next(
                Opening { stage: Stage::Pipe, ..self },
            ),
            (Stage::Pipe, OpenReply::Ran(run)) => {
                let args = self.tmux_args();
                match tmux::tmux_step("tmux pipe-pane", &args, &run) {
                    Ok(()) => Progress::Opened(
                        Session {
                            id: self.id,
                            cwd: self.cwd,
                            cmd: self.cmd,
                            created_at: self.created_at,
                            tmux_name: self.tmux_name,
                            inner: Inner { cols: self.cols, rows: self.rows },
                        },
                    ),
                    Err(e) => Progress::Failed(e),
                }
            },
            _ => Progress::Next(self),
        }
    }
}

impl Opening {
    /// Whether an opening is at its start, for a session of these properties.
    pub open spec fn starts(
        self,
        id: Seq<char>,
        cwd: Seq<char>,
        cmd: Seq<char>,
        cols: u16,
        rows: u16,
    ) -> bool {
        &&& self.wf()
        &&& self.stage is Directory
        &&& self.id@ == id
        &&& self.cwd@ == cwd
        &&& self.cmd@ == cmd
        &&& self.cols == cols
        &&& self.rows == rows
        &&& self.created_at == 0
    }
}

impl Session {
    /// Starts the opening of a session. It is refused if the id is not allowed.
    pub fn open(id: String, cwd: String, cmd: String, cols: u16, rows: u16) -> (r: Result<
        Opening,
        Error,
    >)
        ensures
            match r {
                Ok(o) => valid_id(id@) && o.starts(id@, cwd@, cmd@, cols, rows),
                Err(Error::IdLength) => !id_length_ok(id@),
                Err(Error::IdCharacters) => id_length_ok(id@) && !id_chars_ok(id@),
                Err(_) => false,
            },
    {
        match validate_id(id.as_str()) {
            Ok(()) => {
                let tmux_name = tmux::name_of(id.as_str());
                let sock_path = socket_of(id.as_str());
                Ok(
                    Opening {
                        id,
                        cwd,
                        cmd,
                        cols,
                        rows,
                        tmux_name,
                        sock_path,
                        created_at: 0,
                        stage: Stage::Directory,
                    },
                )
            },
            Err(e) => Err(e),
        }
    }
}

/// Whether a state of an opening is followed by the next one, given what it learned there.
pub open spec fn step_at(trace: Seq<Opening>, replies: Seq<OpenReply>, k: int) -> bool {
    trace[k].leads_to(replies[k], Progress::Next(trace[k + 1]))
}

/// A whole run of an opening: the states it went through, what it learned at each of them, and
/// what came of the last one.
pub open spec fn is_run(trace: Seq<Opening>, replies: Seq<OpenReply>, end: Progress) -> bool {
    &&& trace.len() > 0
    &&& replies.len() == trace.len()
    &&& forall|k: int|
        0 <= k < trace.len() - 1 ==> #[trigger] step_at(trace, replies, k)
    &&& trace.last().leads_to(replies.last(), end)
}

/// Whether tmux said at one of the first `k` stages that it holds the session, or made it.
pub open spec fn held_or_made(trace: Seq<Opening>, replies: Seq<OpenReply>, k: int) -> bool {
    exists|j: int|
        0 <= j < k && ((#[trigger] trace[j]).stage is HasSession || trace[j].stage is NewSession)
            && (replies[j] matches OpenReply::Ran(run) && tmux::failure(
            trace[j].command(),
            run,
        ) is None)
}

/// Whether tmux said at one of the first `k` stages that it does not hold the session.
pub open spec fn not_held(trace: Seq<Opening>, replies: Seq<OpenReply>, k: int) -> bool {
    exists|j: int|
        0 <= j < k && (#[trigger] trace[j]).stage is HasSession && (replies[j] matches OpenReply::Ran(
            run,
        ) && tmux::failure(trace[j].command(), run) is Some)
}

/// Whether the directory was found and the socket was bound at the first `k` stages.
pub open spec fn grounded(trace: Seq<Opening>, replies: Seq<OpenReply>, k: int) -> bool {
    &&& exists|j: int|
        0 <= j < k && (#[trigger] trace[j]).stage is Directory && replies[j]
            == OpenReply::Directory(true)
    &&& exists|j: int|
        0 <= j < k && (#[trigger] trace[j]).stage is Bind && (replies[j] matches OpenReply::Bound(
            b,
        ) && b is Ok)
}

proof fn lemma_run(trace: Seq<Opening>, replies: Seq<OpenReply>, end: Progress, k: int)
    requires
        is_run(trace, replies, end),
        trace[0].stage is Directory,
        0 <= k < trace.len(),
    ensures
        trace[k] == (Opening {
            stage: trace[k].stage,
            created_at: trace[k].created_at,
            ..trace[0]
        }),
        !(trace[k].stage is Directory) ==> exists|j: int|
            0 <= j < k && (#[trigger] trace[j]).stage is Directory && replies[j]
                == OpenReply::Directory(true),
        !(trace[k].stage is Directory) && !(trace[k].stage is Bind) ==> grounded(trace, replies, k),
        trace[k].stage is SetOption || trace[k].stage is NewSession ==> not_held(trace, replies, k),
        trace[k].stage is CreatedAt || trace[k].stage is Clock || trace[k].stage is ResetPipe
            || trace[k].stage is Pipe ==> held_or_made(trace, replies, k),
    decreases k,
{
    if k > 0 {
        let i = k - 1;
        lemma_run(trace, replies, end, i);
        assert(step_at(trace, replies, i));
    }
}

/// A session that is opened is the one that was asked for, under the names that its id gives it.
pub proof fn opened_as_asked(
    trace: Seq<Opening>,
    replies: Seq<OpenReply>,
    s: Session,
)
    requires
        is_run(trace, replies, Progress::Opened(s)),
        trace[0].stage is Directory,
        trace[0].wf(),
    ensures
        s.id == trace[0].id,
        s.cwd == trace[0].cwd,
        s.cmd == trace[0].cmd,
        s.inner == (Inner { cols: trace[0].cols, rows: trace[0].rows }),
        s.wf(),
{
    lemma_run(trace, replies, Progress::Opened(s), trace.len() - 1);
}

/// A session is opened only once its directory was found, its socket was bound, and tmux held the
/// session or made it.
pub proof fn opened_on_solid_ground(trace: Seq<Opening>, replies: Seq<OpenReply>, s: Session)
    requires
        is_run(trace, replies, Progress::Opened(s)),
        trace[0].stage is Directory,
    ensures
        grounded(trace, replies, trace.len() as int),
        held_or_made(trace, replies, trace.len() as int),
{
    let last = trace.len() - 1;
    lemma_run(trace, replies, Progress::Opened(s), last);
    assert(trace[last].leads_to(replies[last], Progress::Opened(s)));
    assert(trace[last].stage is Pipe);
}

/// tmux is asked to make a session only after it said that it does not hold it.
pub proof fn made_only_when_missing(
    trace: Seq<Opening>,
    replies: Seq<OpenReply>,
    end: Progress,
    k: int,
)
    requires
        is_run(trace, replies, end),
        trace[0].stage is Directory,
        0 <= k < trace.len(),
        trace[k].stage is NewSession,
    ensures
        not_held(trace, replies, k),
{
    lemma_run(trace, replies, end, k);
}

/// A session that tmux holds is taken over and not made, and one that tmux does not hold is made and
/// not taken over.
pub proof fn held_is_taken_over(
    trace: Seq<Opening>,
    replies: Seq<OpenReply>,
    end: Progress,
    j: int,
    k: int,
    out: Run,
)
    requires
        is_run(trace, replies, end),
        0 <= j < k < trace.len(),
        trace[j].stage is HasSession,
        replies[j] == OpenReply::Ran(out),
    ensures
        (out matches Ok(o) && o.success) ==> trace[k].stage is CreatedAt || trace[k].stage is Clock
            || trace[k].stage is ResetPipe || trace[k].stage is Pipe,
        !(out matches Ok(o) && o.success) ==> trace[k].stage is SetOption || trace[k].stage
            is NewSession || trace[k].stage is Clock || trace[k].stage is ResetPipe
            || trace[k].stage is Pipe,
    decreases k,
{
    tmux::failures_tell_the_reason(trace[j].command(), out);
    assert(step_at(trace, replies, k - 1));
    if k - 1 > j {
        held_is_taken_over(trace, replies, end, j, k - 1, out);
    }
}

proof fn lemma_time(trace: Seq<Opening>, replies: Seq<OpenReply>, end: Progress, k: int)
    requires
        is_run(trace, replies, end),
        trace[0].stage is Directory,
        0 <= k < trace.len(),
        trace[k].stage is ResetPipe || trace[k].stage is Pipe,
    ensures
        time_told(trace, replies, k, trace[k].created_at),
    decreases k,
{
    let i = k - 1;
    assert(step_at(trace, replies, i));
    if trace[i].stage is ResetPipe || trace[i].stage is Pipe {
        lemma_time(trace, replies, end, i);
        let j = choose|j: int| 0 <= j < i && #[trigger] told_at(trace, replies, j, trace[i].created_at);
        assert(told_at(trace, replies, j, trace[k].created_at));
    } else {
        if trace[i].stage is CreatedAt {
            let out = replies[i]->Ran_0;
            let n = tmux::created_at_in(out)->0;
            tmux::seconds_fit(out);
            assert(trace[k].created_at == n);
        }
        assert(told_at(trace, replies, i, trace[k].created_at));
    }
}

/// Whether the time `t` was learned at a state of an opening: from tmux, or from the clock.
pub open spec fn told_at(trace: Seq<Opening>, replies: Seq<OpenReply>, j: int, t: u64) -> bool {
    match replies[j] {
        OpenReply::Ran(run) => trace[j].stage is CreatedAt && tmux::created_at_in(run) == Some(
            t as nat,
        ),
        OpenReply::Clock(now) => trace[j].stage is Clock && now == t,
        _ => false,
    }
}

/// Whether the time `t` was learned before the state `k` of an opening.
pub open spec fn time_told(trace: Seq<Opening>, replies: Seq<OpenReply>, k: int, t: u64) -> bool {
    exists|j: int| 0 <= j < k && #[trigger] told_at(trace, replies, j, t)
}

proof fn lemma_time_stays(
    trace: Seq<Opening>,
    replies: Seq<OpenReply>,
    end: Progress,
    j: int,
    k: int,
)
    requires
        is_run(trace, replies, end),
        0 <= j <= k < trace.len(),
        trace[j].stage is ResetPipe || trace[j].stage is Pipe,
    ensures
        trace[k].stage is ResetPipe || trace[k].stage is Pipe,
        trace[k].created_at == trace[j].created_at,
    decreases k,
{
    if j < k {
        lemma_time_stays(trace, replies, end, j, k - 1);
        assert(step_at(trace, replies, k - 1));
    }
}

/// The time at which a session counts as created was told by tmux or by the clock; if tmux told it,
/// it is what tmux told.
pub proof fn created_when_told(trace: Seq<Opening>, replies: Seq<OpenReply>, s: Session, j: int)
    requires
        is_run(trace, replies, Progress::Opened(s)),
        trace[0].stage is Directory,
        0 <= j < trace.len(),
    ensures
        time_told(trace, replies, trace.len() as int, s.created_at),
        trace[j].stage is CreatedAt && (replies[j] matches OpenReply::Ran(run)
            && tmux::created_at_in(run) is Some) ==> tmux::created_at_in(replies[j]->Ran_0) == Some(
            s.created_at as nat,
        ),
{
    let last = trace.len() - 1;
    let end = Progress::Opened(s);
    assert(trace[last].leads_to(replies[last], end));
    lemma_time(trace, replies, end, last);
    let i = choose|i: int| 0 <= i < last && #[trigger] told_at(trace, replies, i, s.created_at);
    assert(told_at(trace, replies, i, s.created_at));
    if trace[j].stage is CreatedAt && (replies[j] matches OpenReply::Ran(run)
        && tmux::created_at_in(run) is Some) {
        assert(j < last);
        assert(step_at(trace, replies, j));
        tmux::seconds_fit(replies[j]->Ran_0);
        lemma_time_stays(trace, replies, end, j + 1, last);
    }
}

/// An opening fails exactly where its directory is not there, its socket cannot be bound, tmux does
/// not make the session, or the output cannot be piped. It succeeds exactly where the output is piped
/// at last.
pub proof fn openings_fail_for_a_reason(o: Opening, reply: OpenReply, p: Progress)
    requires
        o.leads_to(reply, p),
        answers(o.stage, reply),
    ensures
        p is Failed <==> match reply {
            OpenReply::Directory(there) => !there,
            OpenReply::Bound(bound) => bound is Err,
            OpenReply::Ran(Ok(out)) => !out.success && (o.stage is NewSession || o.stage is Pipe),
            OpenReply::Ran(Err(_)) => o.stage is NewSession || o.stage is Pipe,
            OpenReply::Clock(_) => false,
        },
        p is Opened <==> o.stage is Pipe && (reply matches OpenReply::Ran(Ok(out)) && out.success),
        p matches Progress::Failed(e) ==> match reply {
            OpenReply::Directory(_) => e.text() == "cwd does not exist or is not a directory: "@
                + o.cwd@,
            OpenReply::Bound(Err(why)) => e.text() == "bind \""@ + o.sock_path@ + "\": "@ + why@,
            OpenReply::Ran(run) => tmux::failure(o.command(), run) matches Some(why) && e.text() == (
            if o.stage is NewSession {
                "tmux new-session: "@
            } else {
                "tmux pipe-pane: "@
            }) + why,
            _ => false,
        },
{
    match reply {
        OpenReply::Ran(run) => {
            tmux::failures_tell_the_reason(o.command(), run);
            if p is Failed {
                let why = tmux::failure(o.command(), run)->0;
                reveal_strlit("tmux new-session: ");
                reveal_strlit("tmux new-session");
                reveal_strlit("tmux pipe-pane: ");
                reveal_strlit("tmux pipe-pane");
                reveal_strlit(": ");
                assert("tmux new-session"@ + ": "@ + why =~= "tmux new-session: "@ + why);
                assert("tmux pipe-pane"@ + ": "@ + why =~= "tmux pipe-pane: "@ + why);
            }
        },
        _ => {},
    }
}

/// The stages of an opening follow one another: the directory, the socket, whether tmux holds the
/// session; then the time of its creation, from the clock if tmux does not tell it, or first a new
/// session; then the end of an earlier pipe, and the pipe. What was asked for stays as it was.
pub proof fn stages_follow(o: Opening, reply: OpenReply, n: Opening)
    requires
        o.leads_to(reply, Progress::Next(n)),
        answers(o.stage, reply),
    ensures
        n.id == o.id,
        n.cwd == o.cwd,
        n.cmd == o.cmd,
        n.cols == o.cols,
        n.rows == o.rows,
        n.tmux_name == o.tmux_name,
        n.sock_path == o.sock_path,
        n.stage == match o.stage {
            Stage::Directory => Stage::Bind,
            Stage::Bind => Stage::HasSession,
            Stage::HasSession => if reply->Ran_0 is Ok && reply->Ran_0->Ok_0.success {
                Stage::CreatedAt
            } else {
                Stage::SetOption
            },
            Stage::CreatedAt => if tmux::created_at_in(reply->Ran_0) is Some {
                Stage::ResetPipe
            } else {
                Stage::Clock
            },
            Stage::SetOption => Stage::NewSession,
            Stage::NewSession => Stage::Clock,
            Stage::Clock => Stage::ResetPipe,
            Stage::ResetPipe => Stage::Pipe,
            Stage::Pipe => n.stage,
        },
        !(o.stage is Pipe),
{
    if reply is Ran {
        tmux::failures_tell_the_reason(o.command(), reply->Ran_0);
    }
}

/// Every command of an opening is about the session of that id, and the output is piped into the
/// socket that was bound for it.
pub proof fn openings_keep_to_their_session(o: Opening, a: OpenAction)
    requires
        o.wf(),
        o.asks_for(a),
    ensures
        match a {
            OpenAction::CheckDirectory(p) => o.stage is Directory && p@ == o.cwd@,
            OpenAction::Bind(p) => o.stage is Bind && p@ == "/tmp/disbot-"@ + o.id@ + ".sock"@,
            OpenAction::ReadClock => o.stage is Clock,
            OpenAction::Tmux(args) => {
                let c = text::texts(args@);
                let name = "disbot-"@ + o.id@;
                match o.stage {
                    Stage::HasSession => c == seq!["has-session"@, "-t"@, name],
                    Stage::CreatedAt => c.len() == 5 && c[3] == name && c[4]
                        == "#{session_created}"@,
                    Stage::SetOption => c == seq!["set-option"@, "-g"@, "focus-events"@, "on"@],
                    Stage::NewSession => c == new_session_command(
                        name,
                        o.cwd@,
                        o.cmd@,
                        o.cols,
                        o.rows,
                    ),
                    Stage::ResetPipe => c == seq!["pipe-pane"@, "-t"@, name],
                    Stage::Pipe => c == seq![
                        "pipe-pane"@,
                        "-t"@,
                        name,
                        "-O"@,
                        "exec nc -U "@ + ("/tmp/disbot-"@ + o.id@ + ".sock"@),
                    ],
                    _ => false,
                }
            },
        },
{
}

/// How many stages lie behind an opening at most.
pub open spec fn stages_behind(s: Stage) -> nat {
    match s {
        Stage::Directory => 0,
        Stage::Bind => 1,
        Stage::HasSession => 2,
        Stage::CreatedAt => 3,
        Stage::SetOption => 3,
        Stage::NewSession => 4,
        Stage::Clock => 5,
        Stage::ResetPipe => 6,
        Stage::Pipe => 7,
    }
}

/// Whether a reply is one to what an opening asks for.
pub open spec fn answers(s: Stage, reply: OpenReply) -> bool {
    match s {
        Stage::Directory => reply is Directory,
        Stage::Bind => reply is Bound,
        Stage::Clock => reply is Clock,
        _ => reply is Ran,
    }
}

/// An opening that gets answers comes to its end: each of them ends it or brings it to a later
/// stage.
pub proof fn openings_end(o: Opening, reply: OpenReply, p: Progress)
    requires
        o.leads_to(reply, p),
        answers(o.stage, reply),
    ensures
        p matches Progress::Next(n) ==> stages_behind(o.stage) < stages_behind(n.stage) <= 7,
{
}

// ---------------------------------------------------------------------------------------------
// Input
// ---------------------------------------------------------------------------------------------

/// The command that types bytes into a session.
pub open spec fn keys_command(tmux_name: Seq<char>, bytes: Seq<u8>) -> Seq<Seq<char>> {
    seq!["send-keys"@, "-t"@, tmux_name, "-H"@] + Seq::new(
        bytes.len(),
        |i: int| number::hex_pair(bytes[i]),
    )
}

/// The bytes that go into one command: the first ones, up to the size of a piece.
pub open spec fn first_keys(data: Seq<u8>) -> Seq<u8> {
    if data.len() <= KEYS_CHUNK {
        data
    } else {
        data.take(KEYS_CHUNK as int)
    }
}

/// The commands that type `data` into a session, one for each piece of it.
pub open spec fn keys_commands(tmux_name: Seq<char>, data: Seq<u8>) -> Seq<Seq<Seq<char>>>
    decreases data.len(),
{
    if data.len() == 0 {
        seq![]
    } else {
        seq![keys_command(tmux_name, first_keys(data))] + keys_commands(
            tmux_name,
            data.skip(first_keys(data).len() as int),
        )
    }
}

/// The arguments of each of a list of commands.
pub open spec fn commands(v: Seq<Vec<String>>) -> Seq<Seq<Seq<char>>> {
    Seq::new(v.len(), |i: int| text::texts(v[i]@))
}

/// Input on its way into a session: the commands that type it, and how many of them were given to
/// tmux and carried out.
#[derive(Debug)]
pub struct Typing {
    pub commands: Vec<Vec<String>>,
    pub given: usize,
}

/// What came of a command that types something.
#[derive(Debug)]
pub enum TypingProgress {
    /// It was carried out, and the typing goes on, or is over.
    Next(Typing),
    /// It failed, and nothing more is typed.
    Failed(Error),
}

impl Typing {
    /// Whether a typing is at its start, for these bytes and the session of this name.
    pub open spec fn starts(self, tmux_name: Seq<char>, data: Seq<u8>) -> bool {
        commands(self.commands@) == keys_commands(tmux_name, data) && self.given == 0
    }

    /// Whether everything is typed.
    pub open spec fn over(self) -> bool {
        self.given >= self.commands.len()
    }

    /// The command that comes next.
    pub open spec fn command(self) -> Seq<Seq<char>> {
        text::texts(self.commands@[self.given as int]@)
    }

    /// Whether `p` is what comes of a typing when it learns how its command went. A typing that is
    /// over waits for nothing, and stays as it is.
    pub open spec fn leads_to(self, run: Run, p: TypingProgress) -> bool {
        if self.over() {
            p == TypingProgress::Next(self)
        } else {
            match tmux::failure(self.command(), run) {
                None => p == TypingProgress::Next(
                    Typing { given: (self.given + 1) as usize, ..self },
                ),
                Some(why) => p matches TypingProgress::Failed(Error::Step { step, cause }) && step@
                    == "tmux send-keys"@ && cause@ == why,
            }
        }
    }

    /// The command that is to be given to tmux next; none, if everything is typed.
    pub fn action(&self) -> (r: Option<&Vec<String>>)
        ensures
            match r {
                Some(args) => !self.over() && text::texts(args@) == self.command(),
                None => self.over(),
            },
    {
        if self.given < self.commands.len() {
            Some(&self.commands[self.given])
        } else {
            None
        }
    }

    /// Takes in how the command went.
    pub fn step(self, run: &Run) -> (r: TypingProgress)
        ensures
            self.leads_to(*run, r),
    {
        if self.given >= self.commands.len() {
            return TypingProgress::Next(self);
        }
        match input_sent(&self.commands[self.given], run) {
            Ok(()) => TypingProgress::Next(
                Typing { given: self.given + 1, commands: self.commands },
            ),
            Err(e) => TypingProgress::Failed(e),
        }
    }
}

impl Session {
    /// Starts to type `data` into the session.
    pub fn send_input(&self, data: &[u8]) -> (r: Typing)
        ensures
            r.starts(self.tmux_name@, data@),
    {
        Typing { commands: self.keys(data), given: 0 }
    }

    /// The commands that type `data` into the session, to be given to tmux one after the other.
    fn keys(&self, data: &[u8]) -> (r: Vec<Vec<String>>)
        ensures
            commands(r@) == keys_commands(self.tmux_name@, data@),
    {
        let ghost name = self.tmux_name@;
        let mut r: Vec<Vec<String>> = Vec::new();
        let mut p: usize = 0;
        proof {
            assert(data@.skip(0) =~= data@);
            assert(commands(r@) + keys_commands(name, data@) =~= keys_commands(name, data@));
        }
        while p < data.len()
            invariant
                p <= data@.len(),
                name == self.tmux_name@,
                commands(r@) + keys_commands(name, data@.skip(p as int)) == keys_commands(
                    name,
                    data@,
                ),
            decreases data@.len() - p,
        {
            let end: usize = if data.len() - p <= KEYS_CHUNK {
                data.len()
            } else {
                p + KEYS_CHUNK
            };
            let ghost rest = data@.skip(p as int);
            let ghost piece = data@.subrange(p as int, end as int);
            let mut args = command(&["send-keys", "-t", self.tmux_name.as_str(), "-H"]);
            assert(text::texts(args@) =~= keys_command(name, data@.subrange(p as int, p as int)));
            let mut i: usize = p;
            while i < end
                invariant
                    p <= i <= end <= data@.len(),
                    text::texts(args@) == keys_command(name, data@.subrange(p as int, i as int)),
                decreases end - i,
            {
                let pair = number::write_hex_pair(data[i]);
                proof {
                    assert(text::texts(args@.push(pair)) =~= text::texts(args@).push(pair@));
                    assert(keys_command(name, data@.subrange(p as int, i + 1)) =~= keys_command(
                        name,
                        data@.subrange(p as int, i as int),
                    ).push(number::hex_pair(data@[i as int])));
                }
                args.push(pair);
                i += 1;
            }
            proof {
                assert(first_keys(rest) =~= piece);
                assert(rest.skip(piece.len() as int) =~= data@.skip(end as int));
                let before = commands(r@);
                assert(commands(r@.push(args)) =~= before.push(text::texts(args@)));
                let k = keys_command(name, piece);
                let after = keys_commands(name, data@.skip(end as int));
                assert(before + (seq![k] + after) =~= before.push(k) + after);
            }
            r.push(args);
            p = end;
        }
        assert(commands(r@) + keys_commands(name, data@.skip(p as int)) =~= commands(r@));
        r
    }

    /// Starts to type the key that has the program in the session draw its screen anew.
    pub fn nudge_redraw(&self) -> (r: Typing)
        ensures
            r.starts(self.tmux_name@, seq![0x0cu8]),
    {
        let data: [u8; 1] = [0x0c];
        assert(data@ =~= seq![0x0cu8]);
        self.send_input(&data)
    }
}

/// Whether a command that was to type into a session did so.
pub fn input_sent(args: &Vec<String>, run: &Run) -> (r: Result<(), Error>)
    ensures
        match r {
            Ok(()) => tmux::failure(text::texts(args@), *run) is None,
            Err(e) => tmux::failure(text::texts(args@), *run) matches Some(why)
                && e matches Error::Step { step, cause } && step@ == "tmux send-keys"@ && cause@
                == why,
        },
{
    tmux::tmux_step("tmux send-keys", args, run)
}

/// The bytes that a command types, read from its digits.
pub open spec fn typed_by(args: Seq<Seq<char>>) -> Seq<u8> {
    Seq::new(
        (args.len() - 4) as nat,
        |i: int| number::unsigned_value(args[i + 4], 16, 255)->0 as u8,
    )
}

/// The bytes that commands type, one command after the other.
pub open spec fn typed(list: Seq<Seq<Seq<char>>>) -> Seq<u8>
    decreases list.len(),
{
    if list.len() == 0 {
        seq![]
    } else {
        typed_by(list[0]) + typed(list.drop_first())
    }
}

proof fn lemma_typed_by(tmux_name: Seq<char>, piece: Seq<u8>)
    ensures
        typed_by(keys_command(tmux_name, piece)) == piece,
{
    let args = keys_command(tmux_name, piece);
    assert forall|i: int| 0 <= i < piece.len() implies typed_by(args)[i] == piece[i] by {
        assert(args[i + 4] == number::hex_pair(piece[i]));
        number::hex_pair_read_back(piece[i]);
    }
    assert(typed_by(args) =~= piece);
}

/// What is sent is what is typed: the commands for some input type its bytes, all of them, in
/// their order, and no others.
pub proof fn input_is_typed(tmux_name: Seq<char>, data: Seq<u8>)
    ensures
        typed(keys_commands(tmux_name, data)) == data,
    decreases data.len(),
{
    if data.len() == 0 {
        assert(data =~= seq![]);
    } else {
        let piece = first_keys(data);
        let rest = data.skip(piece.len() as int);
        lemma_typed_by(tmux_name, piece);
        input_is_typed(tmux_name, rest);
        let all = keys_commands(tmux_name, data);
        assert(all.drop_first() =~= keys_commands(tmux_name, rest));
        assert(piece + rest =~= data);
    }
}

/// The commands for some input go to the session that it is for, and to no other. None of them
/// types more than a piece, and none types nothing.
pub proof fn input_goes_to_its_session(tmux_name: Seq<char>, data: Seq<u8>)
    ensures
        forall|k: int|
            0 <= k < keys_commands(tmux_name, data).len() ==> {
                let args = #[trigger] keys_commands(tmux_name, data)[k];
                &&& 4 < args.len() <= 4 + KEYS_CHUNK
                &&& args.take(4) == seq!["send-keys"@, "-t"@, tmux_name, "-H"@]
            },
    decreases data.len(),
{
    if data.len() > 0 {
        let rest = data.skip(first_keys(data).len() as int);
        let all = keys_commands(tmux_name, data);
        input_goes_to_its_session(tmux_name, rest);
        assert forall|k: int| 0 <= k < all.len() implies {
            let args = #[trigger] all[k];
            &&& 4 < args.len() <= 4 + KEYS_CHUNK
            &&& args.take(4) == seq!["send-keys"@, "-t"@, tmux_name, "-H"@]
        } by {
            if k > 0 {
                assert(all[k] == keys_commands(tmux_name, rest)[k - 1]);
            } else {
                assert(all[k].take(4) =~= seq!["send-keys"@, "-t"@, tmux_name, "-H"@]);
            }
        }
    }
}

proof fn lemma_typed_front(tmux_name: Seq<char>, data: Seq<u8>, k: int)
    requires
        0 <= k < keys_commands(tmux_name, data).len(),
    ensures
        k * KEYS_CHUNK < data.len(),
        typed(keys_commands(tmux_name, data).take(k)) == data.take(k * KEYS_CHUNK),
    decreases data.len(),
{
    let all = keys_commands(tmux_name, data);
    if k == 0 {
        assert(all.take(0).len() == 0);
        assert(data.take(0) =~= seq![]);
    } else {
        let piece = first_keys(data);
        let rest = data.skip(piece.len() as int);
        let after = keys_commands(tmux_name, rest);
        assert(rest.len() > 0);
        lemma_typed_front(tmux_name, rest, k - 1);
        lemma_typed_by(tmux_name, piece);
        assert(all.take(k).drop_first() =~= after.take(k - 1));
        assert(piece + rest.take((k - 1) * KEYS_CHUNK) =~= data.take(k * KEYS_CHUNK));
    }
}

/// Whether a state of a typing is followed by the next one, given how its command went.
pub open spec fn typing_step_at(trace: Seq<Typing>, runs: Seq<Run>, k: int) -> bool {
    !trace[k].over() && trace[k].leads_to(runs[k], TypingProgress::Next(trace[k + 1]))
}

/// A typing from its start: its states, and how each of the commands went that were given to tmux.
pub open spec fn is_typing(
    tmux_name: Seq<char>,
    data: Seq<u8>,
    trace: Seq<Typing>,
    runs: Seq<Run>,
) -> bool {
    &&& trace.len() == runs.len() + 1
    &&& trace[0].starts(tmux_name, data)
    &&& forall|k: int| 0 <= k < runs.len() ==> #[trigger] typing_step_at(trace, runs, k)
}

proof fn lemma_typing(
    tmux_name: Seq<char>,
    data: Seq<u8>,
    trace: Seq<Typing>,
    runs: Seq<Run>,
    k: int,
)
    requires
        is_typing(tmux_name, data, trace, runs),
        0 <= k <= runs.len(),
    ensures
        trace[k].commands == trace[0].commands,
        trace[k].given == k,
        k <= keys_commands(tmux_name, data).len(),
        forall|j: int|
            0 <= j < k ==> tmux::failure(
                keys_commands(tmux_name, data)[j],
                #[trigger] runs[j],
            ) is None,
    decreases k,
{
    let all = keys_commands(tmux_name, data);
    assert(commands(trace[0].commands@).len() == all.len());
    if k > 0 {
        let i = k - 1;
        lemma_typing(tmux_name, data, trace, runs, i);
        assert(typing_step_at(trace, runs, i));
        assert(trace[i].command() == commands(trace[0].commands@)[i]);
    }
}

/// When a typing is over, each of the commands that type its bytes was given to tmux once, in their
/// order, and none of them failed.
pub proof fn typed_to_the_end(
    tmux_name: Seq<char>,
    data: Seq<u8>,
    trace: Seq<Typing>,
    runs: Seq<Run>,
)
    requires
        is_typing(tmux_name, data, trace, runs),
        trace.last().over(),
    ensures
        runs.len() == keys_commands(tmux_name, data).len(),
        forall|j: int|
            0 <= j < runs.len() ==> tmux::failure(
                keys_commands(tmux_name, data)[j],
                #[trigger] runs[j],
            ) is None,
        typed(keys_commands(tmux_name, data)) == data,
{
    lemma_typing(tmux_name, data, trace, runs, runs.len() as int);
    assert(commands(trace[0].commands@).len() == keys_commands(tmux_name, data).len());
    input_is_typed(tmux_name, data);
}

/// When a command of a typing fails, the commands before it were carried out, so that the bytes of
/// as many whole pieces are typed. Nothing after it is given to tmux: the typing has come to its end
/// with the error.
pub proof fn typed_up_to_a_failure(
    tmux_name: Seq<char>,
    data: Seq<u8>,
    trace: Seq<Typing>,
    runs: Seq<Run>,
    failed: Run,
    p: TypingProgress,
)
    requires
        is_typing(tmux_name, data, trace, runs),
        !trace.last().over(),
        tmux::failure(trace.last().command(), failed) is Some,
        trace.last().leads_to(failed, p),
    ensures
        runs.len() < keys_commands(tmux_name, data).len(),
        forall|j: int|
            0 <= j < runs.len() ==> tmux::failure(
                keys_commands(tmux_name, data)[j],
                #[trigger] runs[j],
            ) is None,
        tmux::failure(keys_commands(tmux_name, data)[runs.len() as int], failed) matches Some(why)
            && p matches TypingProgress::Failed(Error::Step { step, cause }) && step@
            == "tmux send-keys"@ && cause@ == why,
        runs.len() * KEYS_CHUNK < data.len(),
        typed(keys_commands(tmux_name, data).take(runs.len() as int)) == data.take(
            runs.len() * KEYS_CHUNK,
        ),
{
    let k = runs.len() as int;
    lemma_typing(tmux_name, data, trace, runs, k);
    assert(commands(trace[0].commands@).len() == keys_commands(tmux_name, data).len());
    assert(trace.last().command() == commands(trace[0].commands@)[k]);
    lemma_typed_front(tmux_name, data, k);
}

// ---------------------------------------------------------------------------------------------
// The screen, the size, the end
// ---------------------------------------------------------------------------------------------

/// The command that shows the last lines of a session.
pub open spec fn capture_command(tmux_name: Seq<char>, lines: u32) -> Seq<Seq<char>> {
    seq![
        "capture-pane"@,
        "-p"@,
        "-J"@,
        "-t"@,
        tmux_name,
        "-S"@,
        "-"@ + number::decimal(lines as nat),
    ]
}

/// The command that gives a session's window a size.
pub open spec fn resize_command(tmux_name: Seq<char>, cols: u16, rows: u16) -> Seq<Seq<char>> {
    seq![
        "resize-window"@,
        "-t"@,
        tmux_name,
        "-x"@,
        number::decimal(cols as nat),
        "-y"@,
        number::decimal(rows as nat),
    ]
}

/// The command that gives a session's window a size; none, if it has that size.
pub open spec fn resize_needed(s: Session, cols: u16, rows: u16) -> Option<Seq<Seq<char>>> {
    if s.inner == (Inner { cols, rows }) {
        None
    } else {
        Some(resize_command(s.tmux_name@, cols, rows))
    }
}

/// The arguments of an optional command.
pub open spec fn opt_command(o: Option<Vec<String>>) -> Option<Seq<Seq<char>>> {
    match o {
        Some(args) => Some(text::texts(args@)),
        None => None,
    }
}

/// A window that is given a size twice in a row needs no command the second time.
pub proof fn same_size_needs_nothing(s: Session, cols: u16, rows: u16)
    ensures
        resize_needed((Session { inner: Inner { cols, rows }, ..s }), cols, rows) is None,
{
}

/// The command that ends a session of tmux.
pub open spec fn kill_command(tmux_name: Seq<char>) -> Seq<Seq<char>> {
    seq!["kill-session"@, "-t"@, tmux_name]
}

/// What is done to end a session, whether or not it works: a command for tmux, and the socket
/// that goes.
#[derive(Debug)]
pub struct Ending {
    pub args: Vec<String>,
    pub socket: String,
}

impl Session {
    /// The command that shows the last lines of the session.
    pub fn capture_tail(&self, lines: u32) -> (r: Vec<String>)
        ensures
            text::texts(r@) == capture_command(self.tmux_name@, lines),
    {
        let n = number::write_decimal(lines as u64);
        let mut start = "-".to_string();
        start.append(n.as_str());
        let r = command(
            &["capture-pane", "-p", "-J", "-t", self.tmux_name.as_str(), "-S", start.as_str()],
        );
        assert(text::texts(r@) =~= capture_command(self.tmux_name@, lines));
        r
    }

    /// Takes note of a size for the session's window. The command that gives it to the window is
    /// needed only if it is not the size that was noted before.
    pub fn resize(&mut self, cols: u16, rows: u16) -> (r: Option<Vec<String>>)
        ensures
            *final(self) == (Session { inner: Inner { cols, rows }, ..*old(self) }),
            opt_command(r) == resize_needed(*old(self), cols, rows),
    {
        let prev = self.inner;
        self.inner = Inner { cols, rows };
        if prev.cols == cols && prev.rows == rows {
            return None;
        }
        let c = number::write_decimal(cols as u64);
        let w = number::write_decimal(rows as u64);
        let args = command(
            &[
                "resize-window",
                "-t",
                self.tmux_name.as_str(),
                "-x",
                c.as_str(),
                "-y",
                w.as_str(),
            ],
        );
        assert(text::texts(args@) =~= resize_command(self.tmux_name@, cols, rows));
        Some(args)
    }

    /// What is done to end the session.
    pub fn kill(&self) -> (r: Ending)
        ensures
            text::texts(r.args@) == kill_command(self.tmux_name@),
            r.socket@ == socket_path(self.id@),
    {
        let args = command(&["kill-session", "-t", self.tmux_name.as_str()]);
        assert(text::texts(args@) =~= kill_command(self.tmux_name@));
        Ending { args, socket: socket_of(self.id.as_str()) }
    }
}

/// Whether a window got its size.
pub fn resized(args: &Vec<String>, run: &Run) -> (r: Result<(), Error>)
    ensures
        match r {
            Ok(()) => tmux::failure(text::texts(args@), *run) is None,
            Err(e) => tmux::failure(text::texts(args@), *run) matches Some(why)
                && e matches Error::Step { step, cause } && step@ == "tmux resize-window"@ && cause@
                == why,
        },
{
    tmux::tmux_step("tmux resize-window", args, run)
}

/// Whether `r` is what is learned of the lines of a session, by how it went to ask for them.
pub open spec fn screen_told(run: Run, r: Result<String, Error>) -> bool {
    match run {
        Err(why) => r matches Err(Error::Step { step, cause }) && step@
            == "spawn tmux capture-pane"@ && cause@ == why@,
        Ok(out) => if out.success {
            r matches Ok(screen) && screen@ == tmux::lossy_text(out.stdout@)
        } else {
            r matches Err(Error::Capture(words)) && words@ == text::trimmed(
                tmux::lossy_text(out.stderr@),
            )
        },
    }
}

/// The lines of a session, as tmux showed them.
pub fn captured(run: &Run) -> (r: Result<String, Error>)
    ensures
        screen_told(*run, r),
{
    match run {
        Err(cause) => Err(
            Error::Step { step: "spawn tmux capture-pane".to_string(), cause: cause.clone() },
        ),
        Ok(out) => if out.success {
            Ok(tmux::from_utf8_lossy(out.stdout.as_slice()))
        } else {
            let words = tmux::from_utf8_lossy(out.stderr.as_slice());
            Err(Error::Capture(text::trim(words.as_str())))
        },
    }
}

// ---------------------------------------------------------------------------------------------
// What the commands say
// ---------------------------------------------------------------------------------------------

/// An id is allowed exactly if it has 1 to 64 characters, each of them a small or a capital letter of
/// ASCII, a figure, a hyphen or an underscore.
pub proof fn ids_that_are_allowed(id: Seq<char>)
    ensures
        valid_id(id) <==> {
            &&& 1 <= id.len() <= 64
            &&& forall|i: int|
                0 <= i < id.len() ==> 'a' <= #[trigger] id[i] <= 'z' || 'A' <= id[i] <= 'Z' || '0'
                    <= id[i] <= '9' || id[i] == '-' || id[i] == '_'
        },
        valid_id(id) <==> id_length_ok(id) && id_chars_ok(id),
        !id_length_ok(id) <==> text::utf8_len(id) == 0 || text::utf8_len(id) > 64,
{
    if id_chars_ok(id) {
        lemma_ascii_len(id);
    }
    if forall|i: int|
        0 <= i < id.len() ==> 'a' <= #[trigger] id[i] <= 'z' || 'A' <= id[i] <= 'Z' || '0' <= id[i]
            <= '9' || id[i] == '-' || id[i] == '_' {
        assert forall|i: int| 0 <= i < id.len() implies is_id_char(#[trigger] id[i]) by {
            assert('a' <= id[i] <= 'z' || 'A' <= id[i] <= 'Z' || '0' <= id[i] <= '9' || id[i] == '-'
                || id[i] == '_');
        }
        lemma_ascii_len(id);
    }
    if id_chars_ok(id) {
        assert forall|i: int| 0 <= i < id.len() implies 'a' <= #[trigger] id[i] <= 'z' || 'A'
            <= id[i] <= 'Z' || '0' <= id[i] <= '9' || id[i] == '-' || id[i] == '_' by {
            assert(is_id_char(id[i]));
        }
    }
}

proof fn lemma_ascii_len(id: Seq<char>)
    requires
        id_chars_ok(id),
    ensures
        text::utf8_len(id) == id.len(),
    decreases id.len(),
{
    if id.len() > 0 {
        let front = id.drop_last();
        assert(is_id_char(id[id.len() - 1]));
        assert forall|i: int| 0 <= i < front.len() implies is_id_char(#[trigger] front[i]) by {
            assert(is_id_char(id[i]));
        }
        lemma_ascii_len(front);
        text::widths(front, id.last());
        assert(id =~= front.push(id.last()));
    } else {
        assert(id =~= Seq::<char>::empty());
        text::widths(id, 'a');
    }
}

/// The command that shows a session is for that session, and asks for as many lines as are wished.
pub proof fn as_many_lines_as_wished(tmux_name: Seq<char>, lines: u32)
    ensures
        capture_command(tmux_name, lines).take(6) == seq![
            "capture-pane"@,
            "-p"@,
            "-J"@,
            "-t"@,
            tmux_name,
            "-S"@,
        ],
        capture_command(tmux_name, lines).len() == 7,
        number::signed_value(capture_command(tmux_name, lines)[6]) == Some(-(lines as int)),
{
    let c = capture_command(tmux_name, lines);
    reveal_strlit("-");
    assert(c.take(6) =~= seq!["capture-pane"@, "-p"@, "-J"@, "-t"@, tmux_name, "-S"@]);
    assert("-"@ =~= seq!['-']);
    number::numbers_within_bounds(lines as nat, 0);
}

/// The command that gives a window a size is for that window, and names the size.
pub proof fn size_as_wished(tmux_name: Seq<char>, cols: u16, rows: u16)
    ensures
        resize_command(tmux_name, cols, rows).len() == 7,
        resize_command(tmux_name, cols, rows)[0] == "resize-window"@,
        resize_command(tmux_name, cols, rows)[1] == "-t"@,
        resize_command(tmux_name, cols, rows)[2] == tmux_name,
        resize_command(tmux_name, cols, rows)[3] == "-x"@,
        resize_command(tmux_name, cols, rows)[5] == "-y"@,
        number::unsigned_value(resize_command(tmux_name, cols, rows)[4], 10, 0xffff) == Some(
            cols as nat,
        ),
        number::unsigned_value(resize_command(tmux_name, cols, rows)[6], 10, 0xffff) == Some(
            rows as nat,
        ),
{
    number::unsigned_read_back(cols as nat, 0xffff);
    number::unsigned_read_back(rows as nat, 0xffff);
}

/// A window needs a command exactly if its size in either direction is not the one it is to have.
pub proof fn other_sizes_need_a_command(s: Session, cols: u16, rows: u16)
    ensures
        resize_needed(s, cols, rows) is Some <==> s.inner.cols != cols || s.inner.rows != rows,
        resize_needed(s, cols, rows) matches Some(args) ==> args == resize_command(
            s.tmux_name@,
            cols,
            rows,
        ),
{
}

/// A session is ended by its name, and the socket that goes is the one with its id.
pub proof fn endings_name_their_session(tmux_name: Seq<char>, id: Seq<char>)
    ensures
        kill_command(tmux_name) == seq!["kill-session"@, "-t"@, tmux_name],
        socket_path(id) == "/tmp/disbot-"@ + id + ".sock"@,
{
}

/// A new session is made under its name, in the directory, in a window of the size and with the
/// command that were asked for.
pub proof fn made_as_asked(
    tmux_name: Seq<char>,
    cwd: Seq<char>,
    cmd: Seq<char>,
    cols: u16,
    rows: u16,
)
    ensures
        ({
            let c = new_session_command(tmux_name, cwd, cmd, cols, rows);
            &&& c.len() == 11
            &&& c.take(4) == seq!["new-session"@, "-d"@, "-s"@, tmux_name]
            &&& c[4] == "-c"@ && c[5] == cwd
            &&& c[6] == "-x"@ && number::unsigned_value(c[7], 10, 0xffff) == Some(cols as nat)
            &&& c[8] == "-y"@ && number::unsigned_value(c[9], 10, 0xffff) == Some(rows as nat)
            &&& c[10] == cmd
        }),
{
    let c = new_session_command(tmux_name, cwd, cmd, cols, rows);
    assert(c.take(4) =~= seq!["new-session"@, "-d"@, "-s"@, tmux_name]);
    number::unsigned_read_back(cols as nat, 0xffff);
    number::unsigned_read_back(rows as nat, 0xffff);
}

/// All that tmux shows of a session is taken, as it is; if it shows nothing because it failed or could
/// not be started, the error ends with the reason.
pub proof fn screens_are_taken_whole(run: Run, r: Result<String, Error>)
    requires
        screen_told(run, r),
    ensures
        r is Ok <==> (run matches Ok(out) && out.success),
        match run {
            Ok(out) => match r {
                Ok(screen) => screen@ == tmux::lossy_text(out.stdout@),
                Err(e) => e.text() == "capture-pane failed: "@ + text::trimmed(
                    tmux::lossy_text(out.stderr@),
                ),
            },
            Err(why) => r matches Err(e) && e.text() == "spawn tmux capture-pane: "@ + why@,
        },
{
    match run {
        Err(why) => {
            reveal_strlit("spawn tmux capture-pane");
            reveal_strlit(": ");
            reveal_strlit("spawn tmux capture-pane: ");
            assert("spawn tmux capture-pane"@ + ": "@ + why@ =~= "spawn tmux capture-pane: "@
                + why@);
        },
        Ok(_) => {},
    }
}

/// The bytes that commands type are read from the digits behind the first four of their words, one
/// byte from each, one command after the other.
pub proof fn bytes_are_read_from_digits(
    args: Seq<Seq<char>>,
    rest: Seq<Seq<Seq<char>>>,
    i: int,
)
    requires
        4 <= i < args.len(),
    ensures
        typed(seq![args] + rest).len() == args.len() - 4 + typed(rest).len(),
        typed(seq![args] + rest).skip(args.len() - 4) == typed(rest),
        typed(Seq::<Seq<Seq<char>>>::empty()) == Seq::<u8>::empty(),
        number::unsigned_value(args[i], 16, 255) matches Some(n) ==> typed(seq![args] + rest)[i - 4]
            == n,
{
    let all = seq![args] + rest;
    assert(all.drop_first() =~= rest);
    assert(typed(all) == typed_by(args) + typed(rest));
    assert(typed(all).skip(args.len() - 4) =~= typed(rest));
    if number::unsigned_value(args[i], 16, 255) is Some {
        assert(typed_by(args)[i - 4] == number::unsigned_value(args[i - 4 + 4], 16, 255)->0 as u8);
    }
}

} // verus!
