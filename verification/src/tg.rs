//! The bot: who may speak to it, what it does with what it is told, and what it says.

use vstd::prelude::*;
use crate::command;
use crate::command::Command;
use crate::error::Error;
use crate::home;
use crate::number;
use crate::registry;
use crate::registry::{Deletion, Registry, SessionMeta};
use crate::screen;
use crate::screen::Message;
use crate::session;
use crate::session::{Opening, Session, Typing, DEFAULT_COLS, DEFAULT_ROWS};
use crate::text;
use crate::text::around;
use crate::tmux;

verus! {

/// How many lines of a screen are shown when the owner asks for it.
pub const STATUS_LINES: u32 = 25;

/// What the bot keeps in mind.
#[derive(Debug)]
pub struct State {
    /// Who may speak to it.
    pub owner: Option<i64>,
    /// The id of the session that it works with.
    pub current: Option<String>,
    /// Whether the owner waits for what a session has to say.
    pub expecting_reply: bool,
}

/// What the bot does next.
#[derive(Debug)]
pub enum Plan {
    /// Nothing.
    Nothing,
    /// Write down the owner, if there is a file for it, then say that there is one now.
    Register { file: String, message: String },
    /// Say something.
    Say(String),
    /// Type something into a session. Whether a failure is told is said as well.
    Type { typing: Typing, report: bool },
    /// Bring the registry in line with tmux, then say what sessions there are.
    List,
    /// Open a session; then see [`State::created`].
    Create { id: String, opening: Opening },
    /// End a session; then see [`State::killed`].
    Kill { id: String, deletion: Deletion },
    /// Give tmux a command that shows a screen; then see [`shown`].
    Show(Vec<String>),
}

impl Plan {
    /// Whether a plan is to say a text.
    pub open spec fn says(self, words: Seq<char>) -> bool {
        self matches Plan::Say(t) && t@ == words
    }

    /// Whether a plan is to type bytes into a session.
    pub open spec fn types(self, s: Session, bytes: Seq<u8>, tell: bool) -> bool {
        self matches Plan::Type { typing, report } && typing.starts(s.tmux_name@, bytes) && report
            == tell
    }
}

/// The session that a state is about, among those that there are.
pub open spec fn current_in(current: Option<String>, sessions: Seq<Session>) -> Option<Session> {
    match current {
        Some(id) => if registry::has_id(sessions, id@) {
            Some(sessions[registry::position_of(sessions, id@)])
        } else {
            None
        },
        None => None,
    }
}

/// The id of the first session of a list.
pub open spec fn first_id(list: Seq<SessionMeta>) -> Option<Seq<char>> {
    if list.len() > 0 {
        Some(list[0].id@)
    } else {
        None
    }
}

fn first_of(registry: &Registry) -> (r: Option<String>)
    ensures
        text::opt_text(r) == first_id(registry::by_age(registry::metas_of(registry@))),
{
    let list = registry.list();
    if list.len() > 0 {
        Some(list[0].id.clone())
    } else {
        None
    }
}

/// The number that stands for a user: the number of the user, read as a signed one.
pub open spec fn signed_id(user: u64) -> int {
    if user < 0x8000_0000_0000_0000 {
        user as int
    } else {
        user - 0x1_0000_0000_0000_0000
    }
}

/// The number that stands for a user.
pub fn sender_id(user: u64) -> (r: i64)
    ensures
        r == signed_id(user),
{
    if user < 0x8000_0000_0000_0000 {
        user as i64
    } else {
        -((u64::MAX - user) as i64) - 1
    }
}

// ---------------------------------------------------------------------------------------------
// Bytes that commands stand for
// ---------------------------------------------------------------------------------------------

/// The byte that the control key makes of a letter: its place in the alphabet, whatever its case.
pub open spec fn control_byte(c: char) -> Option<u8> {
    if 'a' <= c <= 'z' {
        Some((c as u32 - 'a' as u32 + 1) as u8)
    } else if 'A' <= c <= 'Z' {
        Some((c as u32 - 'A' as u32 + 1) as u8)
    } else {
        None
    }
}

/// The control key makes one of the first 26 control characters of a letter, the same one of a small
/// letter and of its capital, and different ones of different letters.
pub proof fn control_keys(a: char, b: char)
    requires
        control_byte(a) is Some,
        control_byte(b) is Some,
    ensures
        1 <= control_byte(a)->0 <= 26,
        control_byte(a) == control_byte(b) <==> a == b || a as int + 32 == b as int || a as int
            == b as int + 32,
{
}

fn control_of(c: char) -> (r: Option<u8>)
    ensures
        r == control_byte(c),
{
    let u: u32 = c as u32;
    if 97 <= u && u <= 122 {
        Some((u - 96) as u8)
    } else if 65 <= u && u <= 90 {
        Some((u - 64) as u8)
    } else {
        None
    }
}

/// What is made of the text behind the command that presses the control key.
pub enum Control {
    /// It is not one byte long.
    Usage,
    /// It is no letter.
    NoLetter,
    /// It is a letter; this is the byte.
    Byte(u8),
}

/// Reads the letter that is pressed with the control key.
pub fn read_control(s: &str) -> (r: Control)
    ensures
        match r {
            Control::Usage => text::utf8_len(text::trimmed(s@)) != 1,
            Control::NoLetter => text::utf8_len(text::trimmed(s@)) == 1 && control_byte(
                text::trimmed(s@)[0],
            ) is None,
            Control::Byte(b) => text::utf8_len(text::trimmed(s@)) == 1 && control_byte(
                text::trimmed(s@)[0],
            ) == Some(b),
        },
{
    let t = text::trim(s);
    if text::byte_len(t.as_str()) != 1 {
        return Control::Usage;
    }
    let v = text::chars_of(t.as_str());
    assert(t@.len() > 0);
    match control_of(v[0]) {
        Some(b) => Control::Byte(b),
        None => Control::NoLetter,
    }
}

/// The bytes that words of digits in base sixteen stand for, if all of them stand for one.
pub open spec fn bytes_in(words: Seq<Seq<char>>) -> Option<Seq<u8>>
    decreases words.len(),
{
    if words.len() == 0 {
        Some(seq![])
    } else {
        match (bytes_in(words.drop_last()), number::unsigned_value(words.last(), 16, 255)) {
            (Some(before), Some(n)) => Some(before.push(n as u8)),
            _ => None,
        }
    }
}

proof fn lemma_bytes_in(words: Seq<Seq<char>>, k: int)
    requires
        0 <= k <= words.len(),
        bytes_in(words.take(k)) is None,
    ensures
        bytes_in(words) is None,
    decreases words.len(),
{
    if k < words.len() {
        assert(words.drop_last().take(k) =~= words.take(k));
        lemma_bytes_in(words.drop_last(), k);
    } else {
        assert(words.take(k) =~= words);
    }
}

/// Bytes that are written as words of two digits each are read back as they were.
pub proof fn bytes_read_back(bytes: Seq<u8>)
    ensures
        bytes_in(Seq::new(bytes.len(), |i: int| number::hex_pair(bytes[i]))) == Some(bytes),
    decreases bytes.len(),
{
    let words = Seq::new(bytes.len(), |i: int| number::hex_pair(bytes[i]));
    if bytes.len() == 0 {
        assert(bytes =~= seq![]);
    } else {
        let front = bytes.drop_last();
        bytes_read_back(front);
        assert(words.drop_last() =~= Seq::new(front.len(), |i: int| number::hex_pair(front[i])));
        number::hex_pair_read_back(bytes.last());
        assert(front.push(bytes.last()) =~= bytes);
    }
}

/// Reads bytes that are written as words of digits in base sixteen.
pub fn read_raw(s: &str) -> (r: Option<Vec<u8>>)
    ensures
        match r {
            Some(b) => bytes_in(text::words(s@)) == Some(b@),
            None => bytes_in(text::words(s@)) is None,
        },
{
    let words = text::split_words(s);
    let ghost all = text::texts(words@);
    let mut r: Vec<u8> = Vec::new();
    let mut i: usize = 0;
    assert(r@ =~= seq![]);
    assert(all.take(0).len() == 0);
    while i < words.len()
        invariant
            i <= words@.len(),
            all == text::texts(words@),
            all == text::words(s@),
            bytes_in(all.take(i as int)) == Some(r@),
        decreases words@.len() - i,
    {
        proof {
            assert(all.take(i + 1).drop_last() =~= all.take(i as int));
            assert(all.take(i + 1).last() == words@[i as int]@);
        }
        match number::parse_unsigned(words[i].as_str(), 16, 255) {
            Some(n) => {
                r.push(n as u8);
            },
            None => {
                proof {
                    lemma_bytes_in(all, i + 1);
                }
                return None;
            },
        }
        i += 1;
    }
    assert(all.take(i as int) =~= all);
    Some(r)
}

// ---------------------------------------------------------------------------------------------
// The owner
// ---------------------------------------------------------------------------------------------

/// Who speaks.
#[derive(Clone, Copy, PartialEq, Eq, Structural, Debug)]
pub enum Speaker {
    /// Somebody who is not listened to.
    Stranger,
    /// Somebody who has just become the owner.
    NewOwner(i64),
    /// The owner.
    Owner,
}

/// Who speaks, as long as `owner` is the owner. The first user who speaks becomes the owner.
pub open spec fn speaker(owner: Option<i64>, from: Option<u64>) -> Speaker {
    match (owner, from) {
        (_, None) => Speaker::Stranger,
        (None, Some(user)) => Speaker::NewOwner(signed_id(user) as i64),
        (Some(o), Some(user)) => if o == signed_id(user) {
            Speaker::Owner
        } else {
            Speaker::Stranger
        },
    }
}

/// Who the owner is once somebody has spoken.
pub open spec fn owner_after(owner: Option<i64>, from: Option<u64>) -> Option<i64> {
    match speaker(owner, from) {
        Speaker::NewOwner(id) => Some(id),
        _ => owner,
    }
}

/// Once there is an owner, nobody else becomes the owner, and nobody else is listened to.
pub proof fn owner_stays(owner: i64, from: Option<u64>)
    ensures
        owner_after(Some(owner), from) == Some(owner),
        speaker(Some(owner), from) is Owner <==> (from is Some && signed_id(from->0) == owner),
        !(speaker(Some(owner), from) is NewOwner),
{
}

/// Whoever becomes the owner is recognised as the owner from then on.
pub proof fn new_owner_is_recognised(user: u64)
    ensures
        speaker(owner_after(None, Some(user)), Some(user)) is Owner,
{
}

/// What is said to a new owner.
pub open spec fn welcome(id: int) -> Seq<char> {
    "registered as owner ("@ + number::signed_decimal(id)
        + "). type /help. /new to create a session."@
}

/// Whether a state is the one at the start, given the owner that is set, the owner that was written
/// down, and the sessions that there are.
pub open spec fn starts_as(
    set_owner: Option<i64>,
    stored_owner: Option<i64>,
    sessions: Seq<Session>,
    r: State,
) -> bool {
    &&& r.owner == (match set_owner {
        Some(o) => Some(o),
        None => stored_owner,
    })
    &&& text::opt_text(r.current) == first_id(registry::by_age(registry::metas_of(sessions)))
    &&& !r.expecting_reply
}

impl State {
    /// The state at the start: the owner is the one that is set, or else the one that was written
    /// down; the session to work with is the oldest one.
    pub fn new(set_owner: Option<i64>, stored_owner: Option<i64>, registry: &Registry) -> (r: State)
        ensures
            starts_as(set_owner, stored_owner, registry@, r),
    {
        let owner = match set_owner {
            Some(o) => Some(o),
            None => stored_owner,
        };
        State { owner, current: first_of(registry), expecting_reply: false }
    }

    /// Sees who speaks.
    pub fn heard_from(&mut self, from: Option<u64>) -> (r: Speaker)
        ensures
            r == speaker(old(self).owner, from),
            *final(self) == (State { owner: owner_after(old(self).owner, from), ..*old(self) }),
    {
        match from {
            None => Speaker::Stranger,
            Some(user) => {
                let id = sender_id(user);
                match self.owner {
                    None => {
                        self.owner = Some(id);
                        Speaker::NewOwner(id)
                    },
                    Some(o) => if o == id {
                        Speaker::Owner
                    } else {
                        Speaker::Stranger
                    },
                }
            },
        }
    }

    /// The session that the bot works with, if it is there.
    pub fn current_session<'a>(&self, registry: &'a Registry) -> (r: Option<&'a Session>)
        requires
            registry.wf(),
        ensures
            match r {
                Some(s) => current_in(self.current, registry@) == Some(*s),
                None => current_in(self.current, registry@) is None,
            },
    {
        match &self.current {
            Some(id) => {
                let r = registry.get(id.as_str());
                proof {
                    if r is Some {
                        let s = *r->0;
                        let i = choose|i: int| 0 <= i < registry@.len() && registry@[i] == s;
                        assert(registry@[i].id@ == id@);
                    }
                }
                r
            },
            None => None,
        }
    }

    /// A plan that types bytes into the session that the bot works with; nothing, if there is none.
    fn type_keys(&self, registry: &Registry, bytes: &[u8], report: bool) -> (r: Plan)
        requires
            registry.wf(),
        ensures
            match current_in(self.current, registry@) {
                Some(s) => r.types(s, bytes@, report),
                None => r is Nothing,
            },
    {
        match self.current_session(registry) {
            Some(s) => Plan::Type { typing: s.send_input(bytes), report },
            None => Plan::Nothing,
        }
    }
}

// ---------------------------------------------------------------------------------------------
// Commands
// ---------------------------------------------------------------------------------------------

/// A state that differs from another one in nothing but that the owner waits for an answer.
pub open spec fn expecting(before: State) -> State {
    State { expecting_reply: true, ..before }
}

/// Whether a state works with the session `id` and is otherwise as before.
pub open spec fn works_with(before: State, id: Seq<char>, after: State) -> bool {
    &&& after.owner == before.owner
    &&& text::opt_text(after.current) == Some(id)
    &&& after.expecting_reply == before.expecting_reply
}

/// What comes of the command that chooses the session to work with.
pub open spec fn use_planned(
    before: State,
    sessions: Seq<Session>,
    args: Seq<char>,
    after: State,
    p: Plan,
) -> bool {
    let id = text::trimmed(args);
    if id.len() == 0 {
        p.says("usage: /use <id>"@) && after == before
    } else if !registry::has_id(sessions, id) {
        p.says("no session '"@ + id + "'"@) && after == before
    } else {
        p.says("active: "@ + id) && works_with(before, id, after)
    }
}

/// The directory that is asked for in the words behind the command that creates a session.
pub open spec fn new_cwd(words: Seq<Seq<char>>, home: Option<Seq<char>>) -> Seq<char> {
    if words.len() > 1 {
        home::tilde_expanded(words[1], home)
    } else {
        home::home_or_root(home)
    }
}

/// What is to run, by the words behind the command that creates a session.
pub open spec fn new_cmd(words: Seq<Seq<char>>, default_cmd: Seq<char>) -> Seq<char> {
    if words.len() > 2 {
        words[2]
    } else {
        default_cmd
    }
}

/// What comes of the command that creates a session.
pub open spec fn new_planned(
    sessions: Seq<Session>,
    default_cmd: Seq<char>,
    home: Option<Seq<char>>,
    args: Seq<char>,
    p: Plan,
) -> bool {
    let w = text::words(args);
    if w.len() == 0 {
        p.says("usage: /new <id> [cwd] [cmd]"@)
    } else {
        match registry::create_refusal(sessions, w[0]) {
            Some(why) => p.says("create failed: "@ + why),
            None => p matches Plan::Create { id, opening } && id@ == w[0] && opening.starts(
                w[0],
                new_cwd(w, home),
                new_cmd(w, default_cmd),
                DEFAULT_COLS,
                DEFAULT_ROWS,
            ),
        }
    }
}

/// The session that the command for ending one is about.
pub open spec fn kill_target(current: Option<String>, args: Seq<char>) -> Option<Seq<char>> {
    if text::is_blank(args) {
        text::opt_text(current)
    } else {
        Some(text::trimmed(args))
    }
}

/// What comes of the command that ends a session.
pub open spec fn kill_planned(
    current: Option<String>,
    before: Registry,
    args: Seq<char>,
    after: Registry,
    p: Plan,
) -> bool {
    match kill_target(current, args) {
        None => p.says("usage: /kill <id>"@) && after == before,
        Some(target) => if registry::has_id(before@, target) {
            let at = registry::position_of(before@, target);
            &&& p matches Plan::Kill { id, deletion }
            &&& id@ == target
            &&& after@ == before@.remove(at)
            &&& text::texts(deletion.ending.args@) == session::kill_command(
                tmux::tmux_name(target),
            )
            &&& deletion.ending.socket@ == session::socket_path(target)
            &&& after.is_saving(deletion.saving)
        } else {
            p.says("kill failed: session not found"@) && after@ == before@
        },
    }
}

/// What comes of a command that types bytes, if there is a session to type them into.
pub open spec fn keys_planned(
    before: State,
    sessions: Seq<Session>,
    bytes: Seq<u8>,
    wait: bool,
    after: State,
    p: Plan,
) -> bool {
    match current_in(before.current, sessions) {
        Some(s) => p.types(s, bytes, false) && after == (if wait {
            expecting(before)
        } else {
            before
        }),
        None => p is Nothing && after == before,
    }
}

/// What comes of the command that presses a letter with the control key.
pub open spec fn ctrl_planned(
    before: State,
    sessions: Seq<Session>,
    args: Seq<char>,
    after: State,
    p: Plan,
) -> bool {
    let t = text::trimmed(args);
    if text::utf8_len(t) != 1 {
        p.says("usage: /ctrl c"@) && after == before
    } else {
        match control_byte(t[0]) {
            None => p.says("ctrl letter must be a-z"@) && after == before,
            Some(b) => keys_planned(before, sessions, seq![b], false, after, p),
        }
    }
}

/// What comes of the command that types bytes given as digits.
pub open spec fn raw_planned(
    before: State,
    sessions: Seq<Session>,
    args: Seq<char>,
    after: State,
    p: Plan,
) -> bool {
    match bytes_in(text::words(args)) {
        Some(b) if b.len() > 0 => keys_planned(before, sessions, b, true, after, p),
        _ => p.says("usage: /raw 1b 5b 41"@) && after == before,
    }
}

/// What comes of a command: the state and the registry that follow, and what the bot does next.
pub open spec fn command_planned(
    before: State,
    known: Registry,
    home: Option<Seq<char>>,
    c: Command,
    after: State,
    left: Registry,
    p: Plan,
) -> bool {
    match c {
        Command::Help => p.says(command::help_text()) && after == before && left == known,
        Command::List => p is List && after == before && left == known,
        Command::Use(args) => use_planned(before, known@, args@, after, p) && left == known,
        Command::New(args) => new_planned(known@, known.command(), home, args@, p) && after
            == before && left == known,
        Command::Kill(args) => kill_planned(before.current, known, args@, left, p) && after
            == before,
        Command::Start | Command::Status => (match current_in(before.current, known@) {
            Some(s) => p matches Plan::Show(args) && text::texts(args@) == session::capture_command(
                s.tmux_name@,
                STATUS_LINES,
            ),
            None => p.says("no active session. /list"@),
        }) && after == before && left == known,
        Command::Enter => keys_planned(before, known@, seq![0x0du8], true, after, p) && left
            == known,
        Command::Esc => keys_planned(before, known@, seq![0x1bu8], false, after, p) && left == known,
        Command::Ctrl(args) => ctrl_planned(before, known@, args@, after, p) && left == known,
        Command::Raw(args) => raw_planned(before, known@, args@, after, p) && left == known,
    }
}

impl State {
    fn use_session(&mut self, registry: &Registry, args: &str) -> (p: Plan)
        ensures
            use_planned(*old(self), registry@, args@, *final(self), p),
    {
        let id = text::trim(args);
        if id.as_str().is_empty() {
            return Plan::Say("usage: /use <id>".to_string());
        }
        if !registry.contains(id.as_str()) {
            return Plan::Say(around("no session '", id.as_str(), "'"));
        }
        let mut words = "active: ".to_string();
        words.append(id.as_str());
        self.current = Some(id);
        Plan::Say(words)
    }

    fn new_session(registry: &Registry, home: &Option<String>, args: &str) -> (p: Plan)
        ensures
            new_planned(registry@, registry.command(), text::opt_text(*home), args@, p),
    {
        let words = text::split_words(args);
        let ghost w = text::words(args@);
        assert(w == text::texts(words@));
        if words.len() == 0 {
            return Plan::Say("usage: /new <id> [cwd] [cmd]".to_string());
        }
        let id = words[0].clone();
        assert(id@ == w[0]);
        let cwd = if words.len() > 1 {
            assert(w[1] == words@[1]@);
            home::expand_tilde(words[1].as_str(), home)
        } else {
            home::default_cwd(home)
        };
        let cmd = if words.len() > 2 {
            assert(w[2] == words@[2]@);
            words[2].clone()
        } else {
            registry.default_cmd().to_string()
        };
        match registry.create(id.clone(), cwd, cmd, DEFAULT_COLS, DEFAULT_ROWS) {
            Ok(opening) => Plan::Create { id, opening },
            Err(e) => {
                let why = e.message();
                let mut words = "create failed: ".to_string();
                words.append(why.as_str());
                Plan::Say(words)
            },
        }
    }

    fn kill_session(&self, registry: &mut Registry, args: &str) -> (p: Plan)
        requires
            old(registry).wf(),
        ensures
            final(registry).wf(),
            final(registry).same_but_sessions(*old(registry)),
            kill_planned(self.current, *old(registry), args@, *final(registry), p),
    {
        let id = if text::blank(args) {
            match &self.current {
                Some(id) => id.clone(),
                None => {
                    return Plan::Say("usage: /kill <id>".to_string());
                },
            }
        } else {
            text::trim(args)
        };
        match registry.delete(id.as_str()) {
            Ok(deletion) => Plan::Kill { id, deletion },
            Err(e) => {
                let why = e.message();
                let mut words = "kill failed: ".to_string();
                words.append(why.as_str());
                proof {
                    reveal_strlit("kill failed: ");
                    reveal_strlit("session not found");
                    reveal_strlit("kill failed: session not found");
                    assert(words@ =~= "kill failed: session not found"@);
                }
                Plan::Say(words)
            },
        }
    }

    fn keys(&mut self, registry: &Registry, bytes: &[u8], wait: bool) -> (p: Plan)
        requires
            registry.wf(),
        ensures
            keys_planned(*old(self), registry@, bytes@, wait, *final(self), p),
    {
        let p = self.type_keys(registry, bytes, false);
        match p {
            Plan::Type { .. } => {
                if wait {
                    self.expecting_reply = true;
                }
            },
            _ => {},
        }
        p
    }

    fn press_control(&mut self, registry: &Registry, args: &str) -> (p: Plan)
        requires
            registry.wf(),
        ensures
            ctrl_planned(*old(self), registry@, args@, *final(self), p),
    {
        match read_control(args) {
            Control::Usage => Plan::Say("usage: /ctrl c".to_string()),
            Control::NoLetter => Plan::Say("ctrl letter must be a-z".to_string()),
            Control::Byte(b) => {
                let data: [u8; 1] = [b];
                assert(data@ =~= seq![b]);
                self.keys(registry, &data, false)
            },
        }
    }

    fn type_raw(&mut self, registry: &Registry, args: &str) -> (p: Plan)
        requires
            registry.wf(),
        ensures
            raw_planned(*old(self), registry@, args@, *final(self), p),
    {
        match read_raw(args) {
            Some(b) => if b.len() > 0 {
                self.keys(registry, b.as_slice(), true)
            } else {
                Plan::Say("usage: /raw 1b 5b 41".to_string())
            },
            None => Plan::Say("usage: /raw 1b 5b 41".to_string()),
        }
    }

    fn show_status(&self, registry: &Registry) -> (p: Plan)
        requires
            registry.wf(),
        ensures
            match current_in(self.current, registry@) {
                Some(s) => p matches Plan::Show(args) && text::texts(args@)
                    == session::capture_command(s.tmux_name@, STATUS_LINES),
                None => p.says("no active session. /list"@),
            },
    {
        match self.current_session(registry) {
            Some(s) => Plan::Show(s.capture_tail(STATUS_LINES)),
            None => Plan::Say("no active session. /list".to_string()),
        }
    }

    /// Sees what comes of a command.
    pub fn handle_command(&mut self, registry: &mut Registry, home: &Option<String>, c: Command) -> (p:
        Plan)
        requires
            old(registry).wf(),
        ensures
            final(registry).wf(),
            final(registry).same_but_sessions(*old(registry)),
            command_planned(
                *old(self),
                *old(registry),
                text::opt_text(*home),
                c,
                *final(self),
                *final(registry),
                p,
            ),
    {
        match c {
            Command::Help => Plan::Say(command::descriptions()),
            Command::List => Plan::List,
            Command::Use(args) => self.use_session(registry, args.as_str()),
            Command::New(args) => State::new_session(registry, home, args.as_str()),
            Command::Kill(args) => self.kill_session(registry, args.as_str()),
            Command::Start => self.show_status(registry),
            Command::Status => self.show_status(registry),
            Command::Enter => {
                let data: [u8; 1] = [0x0d];
                assert(data@ =~= seq![0x0du8]);
                self.keys(registry, &data, true)
            },
            Command::Esc => {
                let data: [u8; 1] = [0x1b];
                assert(data@ =~= seq![0x1bu8]);
                self.keys(registry, &data, false)
            },
            Command::Ctrl(args) => self.press_control(registry, args.as_str()),
            Command::Raw(args) => self.type_raw(registry, args.as_str()),
        }
    }
}

// ---------------------------------------------------------------------------------------------
// Messages
// ---------------------------------------------------------------------------------------------

/// The bytes that are typed for a line of text: the text, and the key that ends the line.
pub open spec fn typed_line(words: Seq<char>) -> Seq<u8> {
    vstd::utf8::encode_utf8(words).push(0x0d)
}

/// What comes of a text that is no command: it is typed into the session that the bot works with.
pub open spec fn line_planned(
    before: State,
    sessions: Seq<Session>,
    words: Seq<char>,
    after: State,
    p: Plan,
) -> bool {
    match current_in(before.current, sessions) {
        Some(s) => p.types(s, typed_line(words), true) && after == expecting(before),
        None => p.says("no session. /new <id> <cwd> [cmd]"@) && after == before,
    }
}

/// What comes of a text that the owner has sent, if there is one.
pub open spec fn text_planned(
    before: State,
    known: Registry,
    home: Option<Seq<char>>,
    words: Option<Seq<char>>,
    after: State,
    left: Registry,
    p: Plan,
) -> bool {
    match words {
        Some(w) => if w.len() == 0 {
            p is Nothing && after == before && left == known
        } else if w[0] != '/' {
            line_planned(before, known@, w, after, p) && left == known
        } else if command::for_this_bot(w) && command::command_words().contains(
            command::command_word(w),
        ) {
            exists|c: Command| #[trigger]
                c.is_given_by(w) && command_planned(before, known, home, c, after, left, p)
        } else {
            p.says("unknown command. /help"@) && after == before && left == known
        },
        None => p is Nothing && after == before && left == known,
    }
}

/// What comes of a message: nothing, if a stranger has sent it; a welcome, if it makes somebody the
/// owner; what comes of its text, if the owner has sent it.
pub open spec fn message_planned(
    before: State,
    known: Registry,
    home: Option<Seq<char>>,
    from: Option<u64>,
    words: Option<Seq<char>>,
    after: State,
    left: Registry,
    p: Plan,
) -> bool {
    match speaker(before.owner, from) {
        Speaker::Stranger => p is Nothing && after == before && left == known,
        Speaker::NewOwner(id) => {
            &&& p matches Plan::Register { file, message }
            &&& file@ == number::signed_decimal(id as int)
            &&& message@ == welcome(id as int)
            &&& after == (State { owner: Some(id), ..before })
            &&& left == known
        },
        Speaker::Owner => text_planned(before, known, home, words, after, left, p),
    }
}

impl State {
    fn type_line(&mut self, registry: &Registry, words: &str) -> (p: Plan)
        requires
            registry.wf(),
        ensures
            line_planned(*old(self), registry@, words@, *final(self), p),
    {
        let mut data = text::utf8_bytes(words);
        data.push(0x0d);
        let p = self.type_keys(registry, data.as_slice(), true);
        match p {
            Plan::Type { .. } => {
                self.expecting_reply = true;
                p
            },
            _ => Plan::Say("no session. /new <id> <cwd> [cmd]".to_string()),
        }
    }

    fn handle_text(
        &mut self,
        registry: &mut Registry,
        home: &Option<String>,
        words: &Option<String>,
    ) -> (p: Plan)
        requires
            old(registry).wf(),
        ensures
            final(registry).wf(),
            final(registry).same_but_sessions(*old(registry)),
            text_planned(
                *old(self),
                *old(registry),
                text::opt_text(*home),
                text::opt_text(*words),
                *final(self),
                *final(registry),
                p,
            ),
    {
        match words {
            None => Plan::Nothing,
            Some(w) => {
                if w.as_str().is_empty() {
                    return Plan::Nothing;
                }
                if !text::starts_with_char(w.as_str(), '/') {
                    return self.type_line(registry, w.as_str());
                }
                match Command::parse(w.as_str()) {
                    Some(c) => {
                        proof {
                            command::given_is_known(c, w@);
                        }
                        self.handle_command(registry, home, c)
                    },
                    None => Plan::Say("unknown command. /help".to_string()),
                }
            },
        }
    }

    /// Sees what comes of a message: who has sent it, and its text.
    pub fn dispatch(
        &mut self,
        registry: &mut Registry,
        home: &Option<String>,
        from: Option<u64>,
        words: &Option<String>,
    ) -> (p: Plan)
        requires
            old(registry).wf(),
        ensures
            final(registry).wf(),
            final(registry).same_but_sessions(*old(registry)),
            message_planned(
                *old(self),
                *old(registry),
                text::opt_text(*home),
                from,
                text::opt_text(*words),
                *final(self),
                *final(registry),
                p,
            ),
    {
        match self.heard_from(from) {
            Speaker::Stranger => Plan::Nothing,
            Speaker::NewOwner(id) => {
                let digits = number::write_signed(id);
                let message = around(
                    "registered as owner (",
                    digits.as_str(),
                    "). type /help. /new to create a session.",
                );
                Plan::Register { file: home::save_owner_to_disk(id), message }
            },
            Speaker::Owner => self.handle_text(registry, home, words),
        }
    }
}

/// A message from somebody who is not the owner changes nothing and is not answered.
pub proof fn strangers_are_ignored(
    before: State,
    known: Registry,
    home: Option<Seq<char>>,
    from: Option<u64>,
    words: Option<Seq<char>>,
    after: State,
    left: Registry,
    p: Plan,
)
    requires
        message_planned(before, known, home, from, words, after, left, p),
        before.owner is Some,
        from is None || signed_id(from->0) != before.owner->0,
    ensures
        p is Nothing,
        after == before,
        left == known,
{
}

/// No message takes the bot away from its owner.
pub proof fn messages_keep_the_owner(
    before: State,
    known: Registry,
    home: Option<Seq<char>>,
    from: Option<u64>,
    words: Option<Seq<char>>,
    after: State,
    left: Registry,
    p: Plan,
)
    requires
        message_planned(before, known, home, from, words, after, left, p),
    ensures
        after.owner == owner_after(before.owner, from),
        before.owner is Some ==> after.owner == before.owner,
{
}

/// The session that the bot works with is held by tmux under the name that its id gives it, so what
/// is typed and what is shown is that session's.
pub proof fn current_session_is_named(current: Option<String>, known: Registry, s: Session)
    requires
        known.wf(),
        current_in(current, known@) == Some(s),
    ensures
        text::opt_text(current) == Some(s.id@),
        session::valid_id(s.id@),
        s.tmux_name@ == tmux::tmux_name(s.id@),
{
    let p = registry::position_of(known@, current->0@);
    assert(known@[p].wf());
}

/// A message makes the owner wait for an answer only if it has something typed into a session.
pub proof fn waiting_for_what_was_typed(
    before: State,
    known: Registry,
    home: Option<Seq<char>>,
    from: Option<u64>,
    words: Option<Seq<char>>,
    after: State,
    left: Registry,
    p: Plan,
)
    requires
        message_planned(before, known, home, from, words, after, left, p),
    ensures
        before.expecting_reply ==> after.expecting_reply,
        after.expecting_reply && !before.expecting_reply ==> p is Type && speaker(
            before.owner,
            from,
        ) is Owner && current_in(before.current, known@) is Some,
{
}

/// Whoever becomes the owner is the owner still when disbot is started anew: what is written down
/// then names the owner.
pub proof fn owner_is_remembered(
    before: State,
    known: Registry,
    home: Option<Seq<char>>,
    from: Option<u64>,
    words: Option<Seq<char>>,
    after: State,
    left: Registry,
    p: Plan,
)
    requires
        message_planned(before, known, home, from, words, after, left, p),
        p is Register,
    ensures
        before.owner is None,
        after.owner is Some,
        home::owner_in(p->file@) == Some(after.owner->0 as int),
{
    home::owner_read_back(after.owner->0);
}

// ---------------------------------------------------------------------------------------------
// What is said when something is done
// ---------------------------------------------------------------------------------------------

/// The line about one session in a list of them.
pub open spec fn list_line(m: SessionMeta, current: Option<Seq<char>>) -> Seq<char> {
    (if current == Some(m.id@) {
        "▶"@
    } else {
        " "@
    }) + " "@ + m.id@ + " — "@ + m.cwd@ + " ("@ + m.cmd@ + ")\n"@
}

/// The lines about a list of sessions.
pub open spec fn list_lines(list: Seq<SessionMeta>, current: Option<Seq<char>>) -> Seq<char>
    decreases list.len(),
{
    if list.len() == 0 {
        seq![]
    } else {
        list_lines(list.drop_last(), current) + list_line(list.last(), current)
    }
}

/// What is said of the sessions that there are.
pub open spec fn list_said(list: Seq<SessionMeta>, current: Option<Seq<char>>) -> Seq<char> {
    if list.len() == 0 {
        "no sessions. /new <id> <cwd> [cmd]"@
    } else {
        "sessions:\n"@ + list_lines(list, current)
    }
}

/// What is said of the sessions that there are, the oldest first.
pub open spec fn sessions_said(sessions: Seq<Session>, current: Option<Seq<char>>) -> Seq<char> {
    list_said(registry::by_age(registry::metas_of(sessions)), current)
}

/// What comes of a session's creation: the state that follows, and what is said.
pub open spec fn creation_told(
    before: State,
    id: Seq<char>,
    result: Result<(), String>,
    after: State,
    words: Seq<char>,
) -> bool {
    match result {
        Ok(_) => works_with(before, id, after) && words == "created and active: "@ + id,
        Err(why) => after == before && words == "create failed: "@ + why@,
    }
}

/// What comes of a session's end, given the sessions that are left: the state that follows, and what
/// is said.
pub open spec fn ending_told(
    before: State,
    sessions: Seq<Session>,
    id: Seq<char>,
    result: Result<(), String>,
    after: State,
    words: Seq<char>,
) -> bool {
    &&& after.owner == before.owner
    &&& after.expecting_reply == before.expecting_reply
    &&& text::opt_text(after.current) == (if result is Ok && text::opt_text(before.current) == Some(
        id,
    ) {
        first_id(registry::by_age(registry::metas_of(sessions)))
    } else {
        text::opt_text(before.current)
    })
    &&& match result {
        Ok(_) => words == "killed: "@ + id,
        Err(why) => words == "kill failed: "@ + why@,
    }
}

impl State {
    /// Tells what sessions there are, the oldest first, with a mark at the one that the bot works
    /// with.
    pub fn list_message(&self, registry: &Registry) -> (r: String)
        ensures
            r@ == sessions_said(registry@, text::opt_text(self.current)),
    {
        let list = registry.list();
        if list.len() == 0 {
            return "no sessions. /new <id> <cwd> [cmd]".to_string();
        }
        let ghost current = text::opt_text(self.current);
        let mut r = "sessions:\n".to_string();
        let mut i: usize = 0;
        assert("sessions:\n"@ + list_lines(list@.take(0), current) =~= r@);
        while i < list.len()
            invariant
                i <= list@.len(),
                current == text::opt_text(self.current),
                r@ == "sessions:\n"@ + list_lines(list@.take(i as int), current),
            decreases list@.len() - i,
        {
            let m = &list[i];
            let ghost before = r@;
            if text::opt_same(&self.current, m.id.as_str()) {
                r.append("▶");
            } else {
                r.append(" ");
            }
            r.append(" ");
            r.append(m.id.as_str());
            r.append(" — ");
            r.append(m.cwd.as_str());
            r.append(" (");
            r.append(m.cmd.as_str());
            r.append(")\n");
            proof {
                assert(r@ =~= before + list_line(list@[i as int], current));
                assert(list@.take(i + 1).drop_last() =~= list@.take(i as int));
                assert(list@.take(i + 1).last() == list@[i as int]);
                let l = list_lines(list@.take(i as int), current);
                let x = list_line(list@[i as int], current);
                assert("sessions:\n"@ + l + x =~= "sessions:\n"@ + (l + x));
            }
            i += 1;
        }
        assert(list@.take(i as int) =~= list@);
        r
    }

    /// Takes in whether a session was created, and tells it. A session that was created is the one
    /// that the bot works with from then on.
    pub fn created(&mut self, id: &str, result: Result<(), String>) -> (r: String)
        ensures
            creation_told(*old(self), id@, result, *final(self), r@),
    {
        match result {
            Ok(_) => {
                self.current = Some(id.to_string());
                let mut r = "created and active: ".to_string();
                r.append(id);
                r
            },
            Err(why) => {
                let mut r = "create failed: ".to_string();
                r.append(why.as_str());
                r
            },
        }
    }

    /// Takes in whether a session was ended, and tells it. If it was the one that the bot worked
    /// with, the oldest of those that are left takes its place.
    pub fn killed(&mut self, registry: &Registry, id: &str, result: Result<(), String>) -> (r:
        String)
        ensures
            ending_told(*old(self), registry@, id@, result, *final(self), r@),
    {
        match result {
            Ok(_) => {
                if text::opt_same(&self.current, id) {
                    self.current = first_of(registry);
                }
                let mut r = "killed: ".to_string();
                r.append(id);
                r
            },
            Err(why) => {
                let mut r = "kill failed: ".to_string();
                r.append(why.as_str());
                r
            },
        }
    }
}

/// What is said when a screen was asked for: what it shows, or why it cannot be shown.
pub open spec fn status_said(result: Result<String, Error>) -> Seq<(Seq<char>, bool)> {
    match result {
        Ok(raw) => screen::screen_said(raw@),
        Err(e) => seq![("capture failed: "@ + e.text(), false)],
    }
}

/// The messages that show a screen that was asked for, or tell why it cannot be shown.
pub fn shown(result: Result<String, Error>) -> (r: Vec<Message>)
    ensures
        screen::said(r@) == status_said(result),
{
    match result {
        Ok(raw) => screen::send_screen(raw.as_str()),
        Err(e) => {
            let why = e.message();
            let mut words = "capture failed: ".to_string();
            words.append(why.as_str());
            let mut r: Vec<Message> = Vec::new();
            r.push(Message { text: words, markdown: false });
            assert(screen::said(r@) =~= seq![("capture failed: "@ + e.text(), false)]);
            r
        },
    }
}

/// What is said when a text could not be typed.
pub fn send_failed(e: &Error) -> (r: String)
    ensures
        r@ == "send failed: "@ + e.text(),
{
    let why = e.message();
    let mut r = "send failed: ".to_string();
    r.append(why.as_str());
    r
}

/// After the session that the bot worked with was ended, it works with one that is there, if there
/// is one.
pub proof fn next_session_is_there(sessions: Seq<Session>)
    ensures
        match first_id(registry::by_age(registry::metas_of(sessions))) {
            Some(id) => registry::has_id(sessions, id),
            None => sessions.len() == 0,
        },
{
    let metas = registry::metas_of(sessions);
    let list = registry::by_age(metas);
    registry::by_age_sorts(metas);
    if list.len() > 0 {
        broadcast use vstd::seq_lib::group_to_multiset_ensures;
        assert(list.contains(list[0]));
        assert(list.to_multiset().count(list[0]) > 0);
        assert(metas.contains(list[0]));
        let i = choose|i: int| 0 <= i < metas.len() && metas[i] == list[0];
        assert(sessions[i].id@ == list[0].id@);
    }
}

// ---------------------------------------------------------------------------------------------
// What comes of what the owner says
// ---------------------------------------------------------------------------------------------

/// The bytes that a plan types, read from the digits of its commands.
pub open spec fn typed_by_plan(p: Plan) -> Seq<u8> {
    match p {
        Plan::Type { typing, .. } => session::typed(session::commands(typing.commands@)),
        _ => seq![],
    }
}

/// Whether a plan types into the session that tmux holds under a name, and into no other, from the
/// first of its commands on.
pub open spec fn typed_into(p: Plan, tmux_name: Seq<char>) -> bool {
    match p {
        Plan::Type { typing, .. } => typing.given == 0 && forall|k: int|
            0 <= k < typing.commands@.len() ==> {
                let args = text::texts((#[trigger] typing.commands@[k])@);
                args.len() > 4 && args[0] == "send-keys"@ && args[1] == "-t"@ && args[2] == tmux_name
                    && args[3] == "-H"@
            },
        _ => false,
    }
}

proof fn lemma_types(p: Plan, s: Session, bytes: Seq<u8>, tell: bool)
    requires
        p.types(s, bytes, tell),
    ensures
        p is Type,
        p->report == tell,
        typed_by_plan(p) == bytes,
        typed_into(p, s.tmux_name@),
{
    let typing = p->typing;
    let name = s.tmux_name@;
    let all = session::keys_commands(name, bytes);
    session::input_is_typed(name, bytes);
    session::input_goes_to_its_session(name, bytes);
    assert(session::commands(typing.commands@) == all);
    assert forall|k: int| 0 <= k < typing.commands@.len() implies {
        let args = text::texts((#[trigger] typing.commands@[k])@);
        args.len() > 4 && args[0] == "send-keys"@ && args[1] == "-t"@ && args[2] == name && args[3]
            == "-H"@
    } by {
        let args = text::texts(typing.commands@[k]@);
        assert(session::commands(typing.commands@)[k] == args);
        assert(all[k] == args);
        assert(args.take(4)[0] == args[0] && args.take(4)[1] == args[1] && args.take(4)[2] == args[2]
            && args.take(4)[3] == args[3]);
    }
}

proof fn lemma_current(current: String, known: Registry, i: int)
    requires
        known.wf(),
        0 <= i < known@.len(),
        known@[i].id@ == current@,
    ensures
        current_in(Some(current), known@) == Some(known@[i]),
        known@[i].tmux_name@ == "disbot-"@ + current@,
        session::valid_id(current@),
{
    let p = registry::position_of(known@, current@);
    assert(known@[p].id@ == current@);
    assert(p == i);
    assert(known@[i].wf());
    tmux::ids_come_in_order(seq![], seq![], current@);
}

/// Whether a user is the owner: the owner's number is the user's, in 64 bits with or without a sign.
pub open spec fn is_owner(owner: Option<i64>, user: u64) -> bool {
    match owner {
        Some(o) => o as int == user as int || o as int + 0x1_0000_0000_0000_0000 == user as int,
        None => false,
    }
}

/// The owner is listened to, whoever else is not; and the first user who speaks becomes the owner.
pub proof fn owner_is_listened_to(owner: Option<i64>, user: u64)
    ensures
        speaker(owner, Some(user)) is Owner <==> is_owner(owner, user),
        speaker(owner, None) is Stranger,
        owner is None ==> is_owner(owner_after(owner, Some(user)), user),
        owner is Some ==> owner_after(owner, Some(user)) == owner,
        owner_after(owner, None) == owner,
        signed_id(user) == user as int || signed_id(user) + 0x1_0000_0000_0000_0000 == user as int,
        -0x8000_0000_0000_0000 <= signed_id(user) < 0x8000_0000_0000_0000,
{
}

/// A text of the owner that is no command is typed into the session in use, all of it and as it
/// stands, with a carriage return behind it: the bytes before that are the text in UTF-8. From then
/// on the owner waits for an answer. A failure is told.
pub proof fn texts_are_typed(
    before: State,
    known: Registry,
    home: Option<Seq<char>>,
    user: u64,
    words: Seq<char>,
    after: State,
    left: Registry,
    p: Plan,
    i: int,
)
    requires
        message_planned(before, known, home, Some(user), Some(words), after, left, p),
        known.wf(),
        is_owner(before.owner, user),
        words.len() > 0,
        words[0] != '/',
        before.current is Some,
        0 <= i < known@.len(),
        known@[i].id@ == before.current->0@,
    ensures
        typed_by_plan(p).len() > 0,
        typed_by_plan(p)[typed_by_plan(p).len() - 1] == 13,
        vstd::utf8::valid_utf8(typed_by_plan(p).drop_last()),
        vstd::utf8::decode_utf8(typed_by_plan(p).drop_last()) == words,
        typed_into(p, "disbot-"@ + before.current->0@),
        p->report,
        after.expecting_reply,
        after.owner == before.owner,
        after.current == before.current,
        left == known,
{
    owner_is_listened_to(before.owner, user);
    lemma_current(before.current->0, known, i);
    lemma_types(p, known@[i], typed_line(words), true);
    let b = typed_line(words);
    assert(b.drop_last() =~= vstd::utf8::encode_utf8(words));
    vstd::utf8::encode_utf8_valid_utf8(words);
    vstd::utf8::encode_utf8_decode_utf8(words);
}

/// Without a session in use, a text is not typed, and the owner is told so; a message without a text
/// does nothing.
pub proof fn texts_need_a_session(
    before: State,
    known: Registry,
    home: Option<Seq<char>>,
    user: u64,
    words: Option<Seq<char>>,
    after: State,
    left: Registry,
    p: Plan,
)
    requires
        message_planned(before, known, home, Some(user), words, after, left, p),
        is_owner(before.owner, user),
        words matches Some(w) ==> w.len() == 0 || w[0] != '/',
        words is Some && words->0.len() > 0 ==> match before.current {
            Some(id) => forall|i: int| 0 <= i < known@.len() ==> (#[trigger] known@[i]).id@ != id@,
            None => true,
        },
    ensures
        after == before,
        left == known,
        if words is Some && words->0.len() > 0 {
            p matches Plan::Say(t) && t@ == "no session. /new <id> <cwd> [cmd]"@
        } else {
            p is Nothing
        },
{
    owner_is_listened_to(before.owner, user);
}

/// What the owner writes as a command is obeyed as that command, with all of the text behind it.
pub proof fn commands_are_obeyed(
    before: State,
    known: Registry,
    home: Option<Seq<char>>,
    user: u64,
    written: Command,
    args: Seq<char>,
    after: State,
    left: Registry,
    p: Plan,
) -> (c: Command)
    requires
        message_planned(
            before,
            known,
            home,
            Some(user),
            Some(written.word().push(' ') + args),
            after,
            left,
            p,
        ),
        is_owner(before.owner, user),
        written.args() is Some ==> written.args() == Some(args),
    ensures
        c.word() == written.word(),
        c.args() == written.args(),
        written.args() is None ==> c == written,
        command_planned(before, known, home, c, after, left, p),
{
    let w = written.word().push(' ') + args;
    owner_is_listened_to(before.owner, user);
    command::commands_read_back(written, args);
    command::word_starts_with_a_slash(written);
    command::given_is_known(written, w);
    assert(w[0] == '/');
    let c = choose|c: Command| #[trigger]
        c.is_given_by(w) && command_planned(before, known, home, c, after, left, p);
    command::one_command_in_a_text(c, written, w);
    c
}

/// The keys that commands press are pressed in the session in use: a carriage return, after which the
/// owner waits, and an escape, after which nothing has changed.
pub proof fn keys_are_pressed(
    before: State,
    known: Registry,
    home: Option<Seq<char>>,
    c: Command,
    after: State,
    left: Registry,
    p: Plan,
    i: int,
)
    requires
        command_planned(before, known, home, c, after, left, p),
        known.wf(),
        c is Enter || c is Esc,
        before.current is Some,
        0 <= i < known@.len(),
        known@[i].id@ == before.current->0@,
    ensures
        typed_by_plan(p) == seq![
            if c is Enter {
                13u8
            } else {
                27u8
            },
        ],
        typed_into(p, "disbot-"@ + before.current->0@),
        !p->report,
        after == (State { expecting_reply: before.expecting_reply || c is Enter, ..before }),
        left == known,
{
    lemma_current(before.current->0, known, i);
    if c is Enter {
        lemma_types(p, known@[i], seq![13u8], false);
    } else {
        lemma_types(p, known@[i], seq![27u8], false);
    }
}

/// A letter that is pressed with the control key is typed as the number of its place in the alphabet,
/// whatever its case and whatever white space stands round it.
pub proof fn control_letters_are_pressed(
    before: State,
    known: Registry,
    home: Option<Seq<char>>,
    args: String,
    space: (Seq<char>, Seq<char>),
    letter: char,
    after: State,
    left: Registry,
    p: Plan,
    i: int,
)
    requires
        command_planned(before, known, home, Command::Ctrl(args), after, left, p),
        known.wf(),
        args@ == space.0 + seq![letter] + space.1,
        forall|k: int| 0 <= k < space.0.len() ==> text::is_white_space(#[trigger] space.0[k]),
        forall|k: int| 0 <= k < space.1.len() ==> text::is_white_space(#[trigger] space.1[k]),
        'a' <= letter <= 'z' || 'A' <= letter <= 'Z',
        before.current is Some,
        0 <= i < known@.len(),
        known@[i].id@ == before.current->0@,
    ensures
        typed_by_plan(p).len() == 1,
        typed_by_plan(p)[0] == if letter as int >= 97 {
            letter as int - 96
        } else {
            letter as int - 64
        },
        typed_into(p, "disbot-"@ + before.current->0@),
        after == before,
        left == known,
{
    lemma_current(before.current->0, known, i);
    text::space_around_is_cut_off(space.0, seq![letter], space.1);
    text::widths(Seq::<char>::empty(), letter);
    assert(Seq::<char>::empty().push(letter) =~= seq![letter]);
    let b = control_byte(letter)->0;
    lemma_types(p, known@[i], seq![b], false);
}

/// Bytes that are given as digits are typed as they are, all of them in their order.
pub proof fn raw_bytes_are_typed(
    before: State,
    known: Registry,
    home: Option<Seq<char>>,
    args: String,
    bytes: Seq<u8>,
    after: State,
    left: Registry,
    p: Plan,
    i: int,
)
    requires
        command_planned(before, known, home, Command::Raw(args), after, left, p),
        known.wf(),
        bytes.len() > 0,
        text::words(args@) == Seq::new(bytes.len(), |k: int| number::hex_pair(bytes[k])),
        before.current is Some,
        0 <= i < known@.len(),
        known@[i].id@ == before.current->0@,
    ensures
        typed_by_plan(p) == bytes,
        typed_into(p, "disbot-"@ + before.current->0@),
        after == (State { expecting_reply: true, ..before }),
        left == known,
{
    lemma_current(before.current->0, known, i);
    bytes_read_back(bytes);
    lemma_types(p, known@[i], bytes, false);
}

/// Bytes are read from words of digits one by one: a word that is no byte spoils all of them.
pub proof fn bytes_are_read_one_by_one(words: Seq<Seq<char>>, w: Seq<char>)
    ensures
        bytes_in(Seq::<Seq<char>>::empty()) == Some(Seq::<u8>::empty()),
        bytes_in(words) is None ==> bytes_in(words.push(w)) is None,
        number::unsigned_value(w, 16, 255) is None ==> bytes_in(words.push(w)) is None,
        bytes_in(words) is Some && number::unsigned_value(w, 16, 255) is Some ==> bytes_in(
            words.push(w),
        ) == Some(bytes_in(words)->0.push(number::unsigned_value(w, 16, 255)->0 as u8)),
{
    assert(words.push(w).drop_last() =~= words);
}

/// The words behind the command that creates a session are its id, its directory and its command. A
/// directory that is named is taken, whether a command stands behind it or not: as it stands, unless
/// it starts with a tilde, which stands for the home directory. Where no directory is named, it is
/// the home directory, or the root if there is none. Where no command is named, it is the one for
/// which nothing else is asked. Words behind these make no difference.
pub proof fn sessions_are_created_as_asked(
    before: State,
    known: Registry,
    home: Option<Seq<char>>,
    args: String,
    rest: Seq<char>,
    after: State,
    left: Registry,
    p: Plan,
)
    requires
        command_planned(before, known, home, Command::New(args), after, left, p),
        text::words(args@).len() > 0,
        session::valid_id(text::words(args@)[0]),
        forall|i: int|
            0 <= i < known@.len() ==> (#[trigger] known@[i]).id@ != text::words(args@)[0],
    ensures
        after == before,
        left == known,
        p matches Plan::Create { id, opening } && ({
            let w = text::words(args@);
            &&& id@ == w[0]
            &&& opening.id@ == w[0]
            &&& opening.cols == 120
            &&& opening.rows == 40
            &&& opening.cmd@ == if w.len() > 2 {
                w[2]
            } else {
                known.command()
            }
            &&& w.len() == 1 ==> opening.cwd@ == if home is Some {
                home->0
            } else {
                "/"@
            }
            &&& w.len() > 1 && (w[1].len() == 0 || w[1][0] != '~') ==> opening.cwd@ == w[1]
            &&& w.len() > 1 && home is None ==> opening.cwd@ == w[1]
            &&& w.len() > 1 && home is Some && w[1] == "~"@ ==> opening.cwd@ == home->0
            &&& w.len() > 1 && home is Some && w[1] == "~/"@ + rest ==> opening.cwd@
                == home->0.push('/') + rest
        }),
{
    let w = text::words(args@);
    registry::refused_or_opened(known@, w[0]);
    session::ids_that_are_allowed(w[0]);
    if w.len() > 1 {
        if home is Some {
            home::tildes_stand_for_home(home->0, rest, w[1]);
        } else {
            home::tildes_stand_for_home(seq![], rest, w[1]);
        }
    }
    match home {
        Some(h) => home::sessions_start_at_home(h),
        None => home::sessions_start_at_home(seq![]),
    }
}

/// A session that cannot be created is not, and the owner is told why; without an id, how it is done.
pub proof fn creation_is_refused(
    before: State,
    known: Registry,
    home: Option<Seq<char>>,
    args: String,
    after: State,
    left: Registry,
    p: Plan,
)
    requires
        command_planned(before, known, home, Command::New(args), after, left, p),
        text::words(args@).len() > 0 ==> registry::has_id(known@, text::words(args@)[0])
            || !session::valid_id(text::words(args@)[0]),
    ensures
        after == before,
        left == known,
        p matches Plan::Say(t) && if text::words(args@).len() == 0 {
            t@ == "usage: /new <id> [cwd] [cmd]"@
        } else if registry::has_id(known@, text::words(args@)[0]) {
            t@ == "create failed: "@ + ("session '"@ + text::words(args@)[0] + "' already exists"@)
        } else if text::utf8_len(text::words(args@)[0]) == 0 || text::utf8_len(
            text::words(args@)[0],
        ) > 64 {
            t@ == "create failed: "@ + "id length must be 1..=64"@
        } else {
            t@ == "create failed: "@ + "id may only contain a-z, 0-9, '-', '_'"@
        },
{
    if text::words(args@).len() > 0 {
        session::ids_that_are_allowed(text::words(args@)[0]);
        registry::refused_or_opened(known@, text::words(args@)[0]);
    }
}

/// The session that the owner chooses, whatever white space stands round its id, is the one in use
/// from then on, if there is one with that id; otherwise nothing changes.
pub proof fn sessions_are_chosen(
    before: State,
    known: Registry,
    home: Option<Seq<char>>,
    args: String,
    space: (Seq<char>, Seq<char>),
    id: Seq<char>,
    after: State,
    left: Registry,
    p: Plan,
)
    requires
        command_planned(before, known, home, Command::Use(args), after, left, p),
        args@ == space.0 + id + space.1,
        forall|k: int| 0 <= k < space.0.len() ==> text::is_white_space(#[trigger] space.0[k]),
        forall|k: int| 0 <= k < space.1.len() ==> text::is_white_space(#[trigger] space.1[k]),
        id.len() > 0,
        !text::is_white_space(id[0]),
        !text::is_white_space(id[id.len() - 1]),
    ensures
        left == known,
        after.owner == before.owner,
        after.expecting_reply == before.expecting_reply,
        if exists|i: int| 0 <= i < known@.len() && (#[trigger] known@[i]).id@ == id {
            &&& after.current is Some
            &&& after.current->0@ == id
            &&& p matches Plan::Say(t)
            &&& t@ == "active: "@ + id
        } else {
            &&& after == before
            &&& p matches Plan::Say(t)
            &&& t@ == "no session '"@ + id + "'"@
        },
{
    text::space_around_is_cut_off(space.0, id, space.1);
}

/// The session that the owner ends is the one that is named, whatever white space stands round its id,
/// or the one in use if none is named. It is taken out, and no other; it is ended in tmux by its
/// name; what is left is written down; and the state stays as it is until it is known how that went.
pub proof fn sessions_are_ended(
    before: State,
    known: Registry,
    home: Option<Seq<char>>,
    args: String,
    space: (Seq<char>, Seq<char>),
    named: Seq<char>,
    after: State,
    left: Registry,
    p: Plan,
    id: Seq<char>,
)
    requires
        command_planned(before, known, home, Command::Kill(args), after, left, p),
        known.wf(),
        args@ == space.0 + named + space.1,
        forall|k: int| 0 <= k < space.0.len() ==> text::is_white_space(#[trigger] space.0[k]),
        forall|k: int| 0 <= k < space.1.len() ==> text::is_white_space(#[trigger] space.1[k]),
        named.len() > 0 ==> !text::is_white_space(named[0]) && !text::is_white_space(
            named[named.len() - 1],
        ),
        named.len() == 0 ==> before.current is Some,
    ensures
        after == before,
        ({
            let target = if named.len() > 0 {
                named
            } else {
                before.current->0@
            };
            if registry::has_id(known@, target) {
                &&& p matches Plan::Kill { id: ended, deletion }
                &&& ended@ == target
                &&& text::texts(deletion.ending.args@) == seq![
                    "kill-session"@,
                    "-t"@,
                    "disbot-"@ + target,
                ]
                &&& deletion.ending.socket@ == "/tmp/disbot-"@ + target + ".sock"@
                &&& registry::has_id(left@, id) <==> registry::has_id(known@, id) && id != target
                &&& left@.len() == known@.len() - 1
                &&& deletion.saving.path@ == left.path()
                &&& deletion.saving.metas@ == registry::by_age(registry::metas_of(left@))
            } else {
                &&& p matches Plan::Say(t)
                &&& t@ == "kill failed: session not found"@
                &&& left@ == known@
            }
        }),
{
    if named.len() > 0 {
        text::space_around_is_cut_off(space.0, named, space.1);
    } else {
        assert(args@ =~= space.0 + space.1);
        assert forall|k: int| 0 <= k < args@.len() implies text::is_white_space(
            #[trigger] args@[k],
        ) by {
            if k < space.0.len() {
                assert(args@[k] == space.0[k]);
            } else {
                assert(args@[k] == space.1[k - space.0.len()]);
            }
        }
        text::blank_is_all_space(args@);
    }
    let target = if named.len() > 0 {
        named
    } else {
        before.current->0@
    };
    if registry::has_id(known@, target) {
        registry::deleted_is_gone(known@, target, id);
        assert(known@[registry::position_of(known@, target)].id@ == target);
    }
}

/// The status is the last 25 lines of the session in use, whichever of the two commands asks for it.
/// It changes nothing.
pub proof fn status_is_shown(
    before: State,
    known: Registry,
    home: Option<Seq<char>>,
    c: Command,
    after: State,
    left: Registry,
    p: Plan,
    i: int,
)
    requires
        command_planned(before, known, home, c, after, left, p),
        known.wf(),
        c is Start || c is Status,
        before.current is Some,
        0 <= i < known@.len(),
        known@[i].id@ == before.current->0@,
    ensures
        after == before,
        left == known,
        p matches Plan::Show(args) && text::texts(args@).len() == 7 && text::texts(args@)[0]
            == "capture-pane"@ && text::texts(args@)[4] == "disbot-"@ + before.current->0@
            && number::signed_value(text::texts(args@)[6]) == Some(-25int),
{
    lemma_current(before.current->0, known, i);
    session::as_many_lines_as_wished(known@[i].tmux_name@, 25);
    let c = session::capture_command(known@[i].tmux_name@, 25);
    assert(c.take(6)[0] == c[0]);
    assert(c.take(6)[4] == c[4]);
}

/// A list of sessions has one line for each of them, in the order of the list, with the id, the
/// directory and the command; the mark stands before the session in use and no other.
pub proof fn lists_tell_of_each(list: Seq<SessionMeta>, m: SessionMeta, current: Option<Seq<char>>)
    ensures
        list_said(Seq::<SessionMeta>::empty(), current) == "no sessions. /new <id> <cwd> [cmd]"@,
        list_said(list.push(m), current) == (if list.len() == 0 {
            "sessions:\n"@
        } else {
            list_said(list, current)
        }) + ((if current is Some && current->0 == m.id@ {
            "▶"@
        } else {
            " "@
        }) + " "@ + m.id@ + " — "@ + m.cwd@ + " ("@ + m.cmd@ + ")\n"@),
{
    assert(list.push(m).drop_last() =~= list);
    let l = list_lines(list, current);
    let x = list_line(m, current);
    assert("sessions:\n"@ + (l + x) =~= "sessions:\n"@ + l + x);
    if list.len() == 0 {
        assert(l =~= seq![]);
        assert("sessions:\n"@ + l =~= "sessions:\n"@);
    }
}

/// The first session of those that there are is the oldest of them.
pub proof fn first_is_the_oldest(sessions: Seq<Session>, i: int) -> (j: int)
    requires
        0 <= i < sessions.len(),
    ensures
        0 <= j < sessions.len(),
        first_id(registry::by_age(registry::metas_of(sessions))) == Some(sessions[j].id@),
        sessions[j].created_at <= sessions[i].created_at,
{
    broadcast use vstd::seq_lib::group_to_multiset_ensures;

    let metas = registry::metas_of(sessions);
    let list = registry::by_age(metas);
    registry::by_age_sorts(metas);
    assert(list.len() > 0);
    assert(list.contains(list[0]));
    assert(list.to_multiset().count(list[0]) > 0);
    assert(metas.contains(list[0]));
    let j = choose|j: int| 0 <= j < metas.len() && metas[j] == list[0];
    assert(metas.contains(metas[i]));
    assert(metas.to_multiset().count(metas[i]) > 0);
    assert(list.contains(metas[i]));
    let k = choose|k: int| 0 <= k < list.len() && list[k] == metas[i];
    assert(list[0].created_at <= list[k].created_at);
    registry::what_is_written_down(sessions, i);
    registry::what_is_written_down(sessions, j);
    j
}

/// What is said to a new owner names the owner.
pub proof fn welcome_names_the_owner(id: i64)
    ensures
        welcome(id as int) == "registered as owner ("@ + number::signed_decimal(id as int)
            + "). type /help. /new to create a session."@,
{
}

/// The owner that is set comes before the one that was written down, and the session in use at the
/// start is the oldest one.
pub proof fn starts_with_the_oldest(
    set_owner: Option<i64>,
    stored_owner: Option<i64>,
    sessions: Seq<Session>,
    r: State,
    i: int,
) -> (j: int)
    requires
        starts_as(set_owner, stored_owner, sessions, r),
        0 <= i < sessions.len(),
    ensures
        set_owner is Some ==> r.owner == set_owner,
        set_owner is None ==> r.owner == stored_owner,
        !r.expecting_reply,
        0 <= j < sessions.len(),
        r.current is Some,
        r.current->0@ == sessions[j].id@,
        sessions[j].created_at <= sessions[i].created_at,
{
    first_is_the_oldest(sessions, i)
}

/// What the owner writes after a session was created is typed into that session; if it could not be
/// created, nothing has changed. Either way the owner is told which session it is about, or why.
pub proof fn created_session_is_used(
    before: State,
    id: Seq<char>,
    result: Result<(), String>,
    after: State,
    words: Seq<char>,
    known: Registry,
    home: Option<Seq<char>>,
    user: u64,
    line: Seq<char>,
    later: State,
    left: Registry,
    p: Plan,
    i: int,
)
    requires
        creation_told(before, id, result, after, words),
        message_planned(after, known, home, Some(user), Some(line), later, left, p),
        known.wf(),
        is_owner(before.owner, user),
        line.len() > 0,
        line[0] != '/',
        0 <= i < known@.len(),
        known@[i].id@ == id,
    ensures
        match result {
            Ok(_) => {
                &&& typed_into(p, "disbot-"@ + id)
                &&& words == "created and active: "@ + id
                &&& after.current is Some && after.current->0@ == id
                &&& after.expecting_reply == before.expecting_reply
            },
            Err(why) => after == before && words == "create failed: "@ + why@,
        },
{
    if result is Ok {
        texts_are_typed(after, known, home, user, line, later, left, p, i);
    }
}

/// After the session in use was ended, the oldest of those that are left is in use, or none if none is
/// left; after another one was ended, or one could not be, the session in use stays.
pub proof fn oldest_takes_over(
    before: State,
    sessions: Seq<Session>,
    id: Seq<char>,
    result: Result<(), String>,
    after: State,
    words: Seq<char>,
    i: int,
)
    requires
        ending_told(before, sessions, id, result, after, words),
        sessions.len() > 0 ==> 0 <= i < sessions.len(),
    ensures
        after.owner == before.owner,
        after.expecting_reply == before.expecting_reply,
        if result is Ok && before.current is Some && before.current->0@ == id {
            if sessions.len() == 0 {
                after.current is None
            } else {
                &&& after.current is Some
                &&& exists|j: int|
                    0 <= j < sessions.len() && (#[trigger] sessions[j]).id@ == after.current->0@
                        && sessions[j].created_at <= sessions[i].created_at
            }
        } else {
            &&& after.current is Some <==> before.current is Some
            &&& after.current is Some ==> after.current->0@ == before.current->0@
        },
        match result {
            Ok(_) => words == "killed: "@ + id,
            Err(why) => words == "kill failed: "@ + why@,
        },
{
    if sessions.len() > 0 {
        let j = first_is_the_oldest(sessions, i);
        assert(sessions[j].created_at <= sessions[i].created_at);
    } else {
        next_session_is_there(sessions);
    }
}

/// Whoever becomes the owner is welcomed by number, the number is written down, and nothing else is
/// done about the message.
pub proof fn new_owner_is_welcomed(
    before: State,
    known: Registry,
    home: Option<Seq<char>>,
    user: u64,
    words: Option<Seq<char>>,
    after: State,
    left: Registry,
    p: Plan,
)
    requires
        message_planned(before, known, home, Some(user), words, after, left, p),
        before.owner is None,
    ensures
        is_owner(after.owner, user),
        after.current == before.current,
        after.expecting_reply == before.expecting_reply,
        left == known,
        p matches Plan::Register { file, message } && home::owner_in(file@) == Some(
            after.owner->0 as int,
        ) && message@ == "registered as owner ("@ + number::signed_decimal(after.owner->0 as int)
            + "). type /help. /new to create a session."@,
{
    owner_is_listened_to(before.owner, user);
    home::owner_read_back(after.owner->0);
}

/// A text that starts with a slash and names no command, or another bot, changes nothing, and the
/// owner is told so.
pub proof fn unknown_commands_are_told(
    before: State,
    known: Registry,
    home: Option<Seq<char>>,
    user: u64,
    words: Seq<char>,
    after: State,
    left: Registry,
    p: Plan,
)
    requires
        message_planned(before, known, home, Some(user), Some(words), after, left, p),
        is_owner(before.owner, user),
        words.len() > 0,
        words[0] == '/',
        !command::for_this_bot(words) || forall|c: Command| #[trigger]
            c.word() != command::command_word(words),
    ensures
        after == before,
        left == known,
        p matches Plan::Say(t) && t@ == "unknown command. /help"@,
{
    owner_is_listened_to(before.owner, user);
    if command::for_this_bot(words) && command::command_words().contains(
        command::command_word(words),
    ) {
        let c = choose|c: Command| #[trigger]
            c.is_given_by(words) && command_planned(before, known, home, c, after, left, p);
        assert(c.word() == command::command_word(words));
    }
}

/// The help is said, and the list is made, whatever the state is, and neither changes anything.
pub proof fn help_and_list_change_nothing(
    before: State,
    known: Registry,
    home: Option<Seq<char>>,
    c: Command,
    after: State,
    left: Registry,
    p: Plan,
)
    requires
        command_planned(before, known, home, c, after, left, p),
        c is Help || c is List,
    ensures
        after == before,
        left == known,
        c is List <==> p is List,
        c is Help ==> (p matches Plan::Say(t) && t@ == command::help_text()),
{
}

/// Where the session in use is not there, nothing is pressed and nothing changes; the status is that
/// there is none.
pub proof fn keys_need_a_session(
    before: State,
    known: Registry,
    home: Option<Seq<char>>,
    c: Command,
    after: State,
    left: Registry,
    p: Plan,
)
    requires
        command_planned(before, known, home, c, after, left, p),
        match before.current {
            Some(id) => forall|i: int| 0 <= i < known@.len() ==> (#[trigger] known@[i]).id@ != id@,
            None => true,
        },
        c is Enter || c is Esc || c is Ctrl || c is Raw || c is Start || c is Status,
    ensures
        after == before,
        left == known,
        !(p is Type),
        c is Enter || c is Esc ==> p is Nothing,
        c is Start || c is Status ==> (p matches Plan::Say(t) && t@ == "no active session. /list"@),
{
}

/// What does not say what is to be pressed, chosen or ended is answered with how it is said, and
/// changes nothing.
pub proof fn usage_is_told(
    before: State,
    known: Registry,
    home: Option<Seq<char>>,
    c: Command,
    after: State,
    left: Registry,
    p: Plan,
)
    requires
        command_planned(before, known, home, c, after, left, p),
    ensures
        match c {
            Command::Ctrl(args) => {
                let t = text::trimmed(args@);
                &&& text::utf8_len(t) != 1 ==> after == before && (p matches Plan::Say(words)
                    && words@ == "usage: /ctrl c"@)
                &&& text::utf8_len(t) == 1 && !('a' <= t[0] <= 'z' || 'A' <= t[0] <= 'Z') ==> after
                    == before && (p matches Plan::Say(words) && words@ == "ctrl letter must be a-z"@)
            },
            Command::Raw(args) => (bytes_in(text::words(args@)) is None || text::words(args@).len()
                == 0) ==> after == before && (p matches Plan::Say(words) && words@
                == "usage: /raw 1b 5b 41"@),
            Command::Use(args) => (forall|i: int|
                0 <= i < args@.len() ==> text::is_white_space(#[trigger] args@[i])) ==> after
                == before && (p matches Plan::Say(words) && words@ == "usage: /use <id>"@),
            Command::Kill(args) => (forall|i: int|
                0 <= i < args@.len() ==> text::is_white_space(#[trigger] args@[i]))
                && before.current is None ==> left == known && (p matches Plan::Say(words) && words@
                == "usage: /kill <id>"@),
            _ => true,
        },
        !(c is Kill) ==> left == known,
{
    match c {
        Command::Use(args) => {
            text::blank_is_all_space(args@);
            text::lemma_trimmed_empty(args@);
        },
        Command::Kill(args) => {
            text::blank_is_all_space(args@);
        },
        Command::Raw(args) => {
            if text::words(args@).len() == 0 {
                assert(text::words(args@) =~= Seq::<Seq<char>>::empty());
                bytes_are_read_one_by_one(seq![], seq![]);
            }
        },
        _ => {},
    }
}

/// No command changes the owner, and none but the one that chooses a session changes which one is in
/// use; a session that was created or ended does so when it is known how that went.
pub proof fn commands_keep_the_rest(
    before: State,
    known: Registry,
    home: Option<Seq<char>>,
    c: Command,
    after: State,
    left: Registry,
    p: Plan,
)
    requires
        command_planned(before, known, home, c, after, left, p),
    ensures
        after.owner == before.owner,
        !(c is Use) ==> after.current == before.current,
        after.expecting_reply != before.expecting_reply ==> p is Type && (c is Enter || c is Raw),
        p is Type ==> c is Enter || c is Esc || c is Ctrl || c is Raw,
        p is Create ==> c is New,
        p is Kill ==> c is Kill,
        p is Show ==> c is Start || c is Status,
{
}

/// What is said when a screen was asked for is the lines of the screen in their order, that it is
/// empty, or why it cannot be shown.
pub proof fn status_shows_the_screen(result: Result<String, Error>)
    ensures
        match result {
            Ok(raw) => {
                let s = screen::without_tail(raw@);
                if exists|i: int| 0 <= i < s.len() && !text::is_white_space(#[trigger] s[i]) {
                    screen::all_shown(status_said(result)) == screen::all_in_one(text::lines(s))
                } else {
                    status_said(result) == seq![("(empty)"@, false)]
                }
            },
            Err(e) => status_said(result) == seq![("capture failed: "@ + e.text(), false)],
        },
{
    match result {
        Ok(raw) => screen::messages_show_the_screen(raw@),
        Err(_) => {},
    }
}

proof fn lemma_line_in_list(list: Seq<SessionMeta>, current: Option<Seq<char>>, k: int) -> (around: (
    Seq<char>,
    Seq<char>,
))
    requires
        0 <= k < list.len(),
    ensures
        list_lines(list, current) == around.0 + list_line(list[k], current) + around.1,
    decreases list.len(),
{
    let before = list_lines(list.drop_last(), current);
    let last = list_line(list.last(), current);
    if k == list.len() - 1 {
        assert(before + last =~= before + last + Seq::<char>::empty());
        (before, Seq::empty())
    } else {
        let a = lemma_line_in_list(list.drop_last(), current, k);
        let x = list_line(list[k], current);
        assert(a.0 + x + a.1 + last =~= a.0 + x + (a.1 + last));
        (a.0, a.1 + last)
    }
}

/// Every session that there is has its line in what is said of them, with its id, its directory and its
/// command, and with the mark exactly if it is the one in use.
pub proof fn every_session_is_told_of(
    sessions: Seq<Session>,
    current: Option<Seq<char>>,
    i: int,
) -> (around: (Seq<char>, Seq<char>))
    requires
        0 <= i < sessions.len(),
    ensures
        sessions_said(sessions, current) == "sessions:\n"@ + around.0 + ((if current is Some
            && current->0 == sessions[i].id@ {
            "▶"@
        } else {
            " "@
        }) + " "@ + sessions[i].id@ + " — "@ + sessions[i].cwd@ + " ("@ + sessions[i].cmd@
            + ")\n"@) + around.1,
{
    broadcast use vstd::seq_lib::group_to_multiset_ensures;

    let metas = registry::metas_of(sessions);
    let list = registry::by_age(metas);
    registry::by_age_sorts(metas);
    registry::what_is_written_down(sessions, i);
    assert(metas.contains(metas[i]));
    assert(metas.to_multiset().count(metas[i]) > 0);
    assert(list.contains(metas[i]));
    let k = choose|k: int| 0 <= k < list.len() && list[k] == metas[i];
    let a = lemma_line_in_list(list, current, k);
    let x = list_line(list[k], current);
    assert("sessions:\n"@ + (a.0 + x + a.1) =~= "sessions:\n"@ + a.0 + x + a.1);
    a
}

} // verus!
