//! tmux: the commands that are given to it, and what its answers mean. The commands are run
//! elsewhere; here is what is run, and what follows from how it went.

use vstd::prelude::*;
use vstd::utf8::*;
use crate::error::Error;
use crate::number;
use crate::text;
use crate::text::{around, trim};

verus! {

/// How a process that ran came to its end.
#[derive(Debug)]
pub struct Output {
    pub success: bool,
    /// The exit status in words.
    pub status: String,
    pub stdout: Vec<u8>,
    pub stderr: Vec<u8>,
}

/// How it went to run a process: its end, or in words why it could not be started.
pub type Run = Result<Output, String>;

// ---------------------------------------------------------------------------------------------
// What std makes of bytes and of lists of strings
// ---------------------------------------------------------------------------------------------

/// What `String::from_utf8_lossy` makes of bytes.
pub uninterp spec fn lossy_text(bytes: Seq<u8>) -> Seq<char>;

/// `String::from_utf8_lossy` turns bytes into text. What it puts in place of bytes that are not
/// UTF-8 is left to its name here; bytes that are UTF-8 stand for the characters they encode.
#[verifier::external_body]
pub(crate) fn from_utf8_lossy(bytes: &[u8]) -> (r: String)
    ensures
        r@ == lossy_text(bytes@),
        valid_utf8(bytes@) ==> r@ == decode_utf8(bytes@),
{
    String::from_utf8_lossy(bytes).into_owned()
}

/// What a list of strings looks like when it is formatted with `{:?}`.
pub uninterp spec fn debug_text(list: Seq<Seq<char>>) -> Seq<char>;

/// `format!` with `{:?}` writes a list of strings, quoted and with their special characters
/// escaped. The escapes are left to the name of the result.
#[verifier::external_body]
fn format_debug(list: &Vec<String>) -> (r: String)
    ensures
        r@ == debug_text(text::texts(list@)),
{
    format!("{:?}", list)
}

// ---------------------------------------------------------------------------------------------
// Running a command
// ---------------------------------------------------------------------------------------------

/// A command for tmux: its arguments, each in a string of its own.
pub fn command(words: &[&str]) -> (r: Vec<String>)
    ensures
        text::texts(r@) == Seq::new(words@.len(), |i: int| words@[i]@),
{
    let mut r: Vec<String> = Vec::new();
    let mut i: usize = 0;
    while i < words.len()
        invariant
            i <= words@.len(),
            r@.len() == i,
            forall|j: int| 0 <= j < i ==> (#[trigger] r@[j])@ == words@[j]@,
        decreases words@.len() - i,
    {
        r.push(words[i].to_string());
        i += 1;
    }
    assert(text::texts(r@) =~= Seq::new(words@.len(), |i: int| words@[i]@));
    r
}

/// The words for a command that ran and failed: the command, the exit status, and what the
/// process said.
pub open spec fn exit_failure(command: Seq<char>, status: Seq<char>, said: Seq<char>) -> Seq<char> {
    "tmux "@ + command + " failed ("@ + status + "): "@ + text::trimmed(said)
}

/// The words for a command that ran and failed, from the command and from what the process said,
/// both of them as text.
pub fn describe_exit(command: &str, status: &str, said: &str) -> (r: String)
    ensures
        r@ == exit_failure(command@, status@, said@),
{
    let mut r = around("tmux ", command, " failed (");
    r.append(status);
    r.append("): ");
    let t = trim(said);
    r.append(t.as_str());
    r
}

/// In words, how a command failed, if it did.
pub open spec fn failure(args: Seq<Seq<char>>, run: Run) -> Option<Seq<char>> {
    match run {
        Err(cause) => Some("spawn tmux: "@ + cause@),
        Ok(out) => if out.success {
            None
        } else {
            Some(exit_failure(debug_text(args), out.status@, lossy_text(out.stderr@)))
        },
    }
}

/// Whether a command was carried out, and if it was not, in words why.
pub fn tmux(args: &Vec<String>, run: &Run) -> (r: Result<(), String>)
    ensures
        match r {
            Ok(()) => failure(text::texts(args@), *run) is None,
            Err(cause) => failure(text::texts(args@), *run) == Some(cause@),
        },
{
    match run {
        Err(cause) => {
            let mut r = "spawn tmux: ".to_string();
            r.append(cause.as_str());
            Err(r)
        },
        Ok(out) => if out.success {
            Ok(())
        } else {
            let command = format_debug(args);
            let said = from_utf8_lossy(out.stderr.as_slice());
            Err(describe_exit(command.as_str(), out.status.as_str(), said.as_str()))
        },
    }
}

/// Whether a command was carried out; if it was not, the error names the step that it was for.
pub fn tmux_step(step: &str, args: &Vec<String>, run: &Run) -> (r: Result<(), Error>)
    ensures
        match r {
            Ok(()) => failure(text::texts(args@), *run) is None,
            Err(e) => failure(text::texts(args@), *run) matches Some(why) && e matches Error::Step {
                step: s,
                cause,
            } && s@ == step@ && cause@ == why,
        },
{
    match tmux(args, run) {
        Ok(()) => Ok(()),
        Err(cause) => Err(Error::Step { step: step.to_string(), cause }),
    }
}

// ---------------------------------------------------------------------------------------------
// Asking tmux
// ---------------------------------------------------------------------------------------------

/// What a process wrote, if it ran and succeeded.
pub open spec fn said(run: Run) -> Option<Seq<char>> {
    match run {
        Ok(out) if out.success => Some(lossy_text(out.stdout@)),
        _ => None,
    }
}

/// What a process wrote, as text, if it ran and succeeded.
pub fn stdout_text(run: &Run) -> (r: Option<String>)
    ensures
        text::opt_text(r) == said(*run),
{
    match run {
        Ok(out) => if out.success {
            Some(from_utf8_lossy(out.stdout.as_slice()))
        } else {
            None
        },
        Err(_) => None,
    }
}

/// The number of seconds that `text` stands for.
pub open spec fn seconds_in(text: Seq<char>) -> Option<nat> {
    number::unsigned_value(text::trimmed(text), 10, u64::MAX as nat)
}

/// Reads a number of seconds, with white space round it or not.
pub fn read_seconds(text: &str) -> (r: Option<u64>)
    ensures
        match r {
            Some(n) => seconds_in(text@) == Some(n as nat),
            None => seconds_in(text@) is None,
        },
{
    let t = trim(text);
    number::parse_unsigned(t.as_str(), 10, u64::MAX)
}

/// When a session was created, as tmux answered.
pub open spec fn created_at_in(run: Run) -> Option<nat> {
    match said(run) {
        Some(text) => seconds_in(text),
        None => None,
    }
}

/// When a session was created, if tmux knows it.
pub fn session_created_at(run: &Run) -> (r: Option<u64>)
    ensures
        match r {
            Some(n) => created_at_in(*run) == Some(n as nat),
            None => created_at_in(*run) is None,
        },
{
    match stdout_text(run) {
        Some(text) => read_seconds(text.as_str()),
        None => None,
    }
}

/// The command that asks when a session was created.
pub open spec fn created_at_command(tmux_name: Seq<char>) -> Seq<Seq<char>> {
    seq!["display-message"@, "-p"@, "-t"@, tmux_name, "#{session_created}"@]
}

/// Asks when a session was created.
pub fn ask_created_at(tmux_name: &str) -> (r: Vec<String>)
    ensures
        text::texts(r@) == created_at_command(tmux_name@),
{
    let r = command(&["display-message", "-p", "-t", tmux_name, "#{session_created}"]);
    assert(text::texts(r@) =~= created_at_command(tmux_name@));
    r
}

/// The command that asks for the directory that a session is in.
pub open spec fn pane_path_command(tmux_name: Seq<char>) -> Seq<Seq<char>> {
    seq!["display-message"@, "-p"@, "-t"@, tmux_name, "#{pane_current_path}"@]
}

/// Asks for the directory that a session is in.
pub fn ask_pane_path(tmux_name: &str) -> (r: Vec<String>)
    ensures
        text::texts(r@) == pane_path_command(tmux_name@),
{
    let r = command(&["display-message", "-p", "-t", tmux_name, "#{pane_current_path}"]);
    assert(text::texts(r@) =~= pane_path_command(tmux_name@));
    r
}

/// The path that a text names, if it names one.
pub open spec fn path_in(s: Seq<char>) -> Option<Seq<char>> {
    if text::is_blank(s) {
        None
    } else {
        Some(text::trimmed(s))
    }
}

/// Reads a path, with white space round it or not. A text that is blank names none.
pub fn read_path(s: &str) -> (r: Option<String>)
    ensures
        text::opt_text(r) == path_in(s@),
{
    let t = trim(s);
    proof {
        text::lemma_trimmed_empty(s@);
    }
    if t.as_str().is_empty() {
        None
    } else {
        Some(t)
    }
}

/// The directory that a session is in, as tmux answered.
pub open spec fn pane_path_in(run: Run) -> Option<Seq<char>> {
    match said(run) {
        Some(answer) => path_in(answer),
        None => None,
    }
}

/// The directory that a session is in, if tmux knows it.
pub fn pane_current_path(run: &Run) -> (r: Option<String>)
    ensures
        text::opt_text(r) == pane_path_in(*run),
{
    match stdout_text(run) {
        Some(answer) => read_path(answer.as_str()),
        None => None,
    }
}

// ---------------------------------------------------------------------------------------------
// The sessions that tmux holds
// ---------------------------------------------------------------------------------------------

/// The name under which tmux holds the session with an id.
pub open spec fn tmux_name(id: Seq<char>) -> Seq<char> {
    "disbot-"@ + id
}

/// The name under which tmux holds a session.
pub fn name_of(id: &str) -> (r: String)
    ensures
        r@ == tmux_name(id@),
{
    let mut r = "disbot-".to_string();
    r.append(id);
    r
}

/// Asks for the names of all sessions.
pub fn ask_sessions() -> (r: Vec<String>)
    ensures
        text::texts(r@) == seq!["list-sessions"@, "-F"@, "#{session_name}"@],
{
    let r = command(&["list-sessions", "-F", "#{session_name}"]);
    assert(text::texts(r@) =~= seq!["list-sessions"@, "-F"@, "#{session_name}"@]);
    r
}

/// The ids of those of the named sessions that are disbot's, in the order of the names.
pub open spec fn session_ids(names: Seq<Seq<char>>) -> Seq<Seq<char>>
    decreases names.len(),
{
    if names.len() == 0 {
        seq![]
    } else {
        let before = session_ids(names.drop_last());
        match text::after_prefix(names.last(), "disbot-"@) {
            Some(id) => before.push(id),
            None => before,
        }
    }
}

/// The ids of disbot's sessions in a listing with one name in each line.
pub fn read_sessions(listing: &str) -> (r: Vec<String>)
    ensures
        text::texts(r@) == session_ids(text::lines(listing@)),
{
    let names = text::split_lines(listing);
    let ghost all = text::texts(names@);
    let mut r: Vec<String> = Vec::new();
    let mut i: usize = 0;
    assert(text::texts(r@) =~= session_ids(all.take(0)));
    while i < names.len()
        invariant
            i <= names@.len(),
            all == text::texts(names@),
            text::texts(r@) == session_ids(all.take(i as int)),
        decreases names@.len() - i,
    {
        let found = text::strip_prefix(names[i].as_str(), "disbot-");
        proof {
            assert(all.take(i + 1).drop_last() =~= all.take(i as int));
            assert(all.take(i + 1).last() == names@[i as int]@);
        }
        match found {
            Some(id) => {
                proof {
                    assert(text::texts(r@.push(id)) =~= text::texts(r@).push(id@));
                }
                r.push(id);
            },
            None => {},
        }
        i += 1;
    }
    assert(all.take(i as int) =~= all);
    r
}

/// Whether `r` is what is learned of the sessions that tmux holds, by how it went to ask for them.
pub open spec fn sessions_told(run: Run, r: Result<Vec<String>, Error>) -> bool {
    match run {
        Err(cause) => r matches Err(Error::Step { step, cause: why }) && step@
            == "tmux list-sessions"@ && why@ == cause@,
        Ok(out) => r matches Ok(ids) && text::texts(ids@) == (if out.success {
            session_ids(text::lines(lossy_text(out.stdout@)))
        } else {
            seq![]
        }),
    }
}

/// The ids of the sessions that tmux holds. That tmux could not be started is an error; that it
/// ran and failed means that there are none.
pub fn list_disbot_tmux_sessions(run: &Run) -> (r: Result<Vec<String>, Error>)
    ensures
        sessions_told(*run, r),
{
    match run {
        Err(cause) => Err(
            Error::Step { step: "tmux list-sessions".to_string(), cause: cause.clone() },
        ),
        Ok(out) => if out.success {
            let listing = from_utf8_lossy(out.stdout.as_slice());
            Ok(read_sessions(listing.as_str()))
        } else {
            let none: Vec<String> = Vec::new();
            assert(text::texts(none@) =~= seq![]);
            Ok(none)
        },
    }
}

/// A listing with one name in each line.
pub open spec fn listing_of(names: Seq<Seq<char>>) -> Seq<char>
    decreases names.len(),
{
    if names.len() == 0 {
        seq![]
    } else {
        names[0].push('\n') + listing_of(names.drop_first())
    }
}

/// Whether a name can stand in a line of its own.
pub open spec fn fits_a_line(name: Seq<char>) -> bool {
    &&& forall|i: int| 0 <= i < name.len() ==> #[trigger] name[i] != '\n'
    &&& name.len() > 0 ==> name.last() != '\r'
}

/// The lines of a listing are the names that it lists.
pub proof fn listing_read_back(names: Seq<Seq<char>>)
    requires
        forall|k: int| 0 <= k < names.len() ==> fits_a_line(#[trigger] names[k]),
    ensures
        text::lines(listing_of(names)) == names,
    decreases names.len(),
{
    if names.len() == 0 {
        assert(names =~= seq![]);
    } else {
        let rest = names.drop_first();
        assert forall|k: int| 0 <= k < rest.len() implies fits_a_line(#[trigger] rest[k]) by {
            assert(rest[k] == names[k + 1]);
        }
        listing_read_back(rest);
        let n = names[0];
        let s = listing_of(names);
        let after = listing_of(rest);
        text::lemma_first_line(n, after);
        assert(s =~= n.push('\n') + after);
        assert(s.take(n.len() as int) =~= n);
        assert(s.skip(n.len() as int + 1) =~= after);
        assert(seq![n] + rest =~= names);
    }
}

/// The ids that are found among names are exactly those whose sessions are named.
pub proof fn ids_of_names(names: Seq<Seq<char>>, id: Seq<char>)
    ensures
        session_ids(names).contains(id) <==> names.contains(tmux_name(id)),
    decreases names.len(),
{
    if names.len() > 0 {
        let before = names.drop_last();
        let last = names.last();
        let found = session_ids(before);
        ids_of_names(before, id);
        assert(names =~= before.push(last));
        text::lemma_contains_push(before, last, tmux_name(id));
        match text::after_prefix(last, "disbot-"@) {
            Some(i) => {
                text::lemma_contains_push(found, i, id);
                assert(last =~= "disbot-"@ + i);
                assert(tmux_name(id).skip("disbot-"@.len() as int) =~= id);
            },
            None => {
                if last == tmux_name(id) {
                    assert(last.subrange(0, "disbot-"@.len() as int) =~= "disbot-"@);
                }
            },
        }
    } else {
        assert(!names.contains(tmux_name(id)));
        assert(!session_ids(names).contains(id));
    }
}

/// Different ids have different names in tmux.
pub proof fn names_differ(a: Seq<char>, b: Seq<char>)
    ensures
        tmux_name(a) == tmux_name(b) <==> a == b,
{
    assert(tmux_name(a).skip("disbot-"@.len() as int) =~= a);
    assert(tmux_name(b).skip("disbot-"@.len() as int) =~= b);
}

// ---------------------------------------------------------------------------------------------
// What the answers of tmux mean
// ---------------------------------------------------------------------------------------------

/// A command was carried out exactly when it ran and succeeded. The words for a failure end with what
/// is known of the reason: why tmux could not be started, or what it said, without the white space
/// round it; in between they hold the command and the exit status.
pub proof fn failures_tell_the_reason(args: Seq<Seq<char>>, run: Run)
    ensures
        failure(args, run) is None <==> (run matches Ok(out) && out.success),
        match run {
            Err(cause) => failure(args, run) == Some("spawn tmux: "@ + cause@),
            Ok(out) => !out.success ==> failure(args, run) == Some(
                "tmux "@ + debug_text(args) + " failed ("@ + out.status@ + "): "@ + text::trimmed(
                    lossy_text(out.stderr@),
                ),
            ),
        },
{
}

/// What tmux wrote counts only if it ran and succeeded, and then all of it does.
pub proof fn only_success_counts(run: Run)
    ensures
        match run {
            Ok(out) => said(run) == if out.success {
                Some(lossy_text(out.stdout@))
            } else {
                None
            },
            Err(_) => said(run) is None,
        },
{
}

/// A number of seconds is read whatever white space stands round it, if it fits into 64 bits.
pub proof fn seconds_are_read(a: Seq<char>, n: nat, b: Seq<char>, out: Output)
    requires
        forall|i: int| 0 <= i < a.len() ==> text::is_white_space(#[trigger] a[i]),
        forall|i: int| 0 <= i < b.len() ==> text::is_white_space(#[trigger] b[i]),
        lossy_text(out.stdout@) == a + number::decimal(n) + b,
    ensures
        created_at_in(Ok(out)) == if out.success && n <= 0xffff_ffff_ffff_ffff {
            Some(n)
        } else {
            None
        },
        created_at_in(Err(out.status)) is None,
{
    let m = number::decimal(n);
    number::written_in_digits(n);
    assert('0' <= m[0] <= '9' && '0' <= m[m.len() - 1] <= '9');
    text::space_around_is_cut_off(a, m, b);
    number::numbers_within_bounds(n, 0xffff_ffff_ffff_ffff);
}

/// The time that tmux tells fits into 64 bits.
pub proof fn seconds_fit(run: Run)
    ensures
        created_at_in(run) matches Some(n) ==> n <= 0xffff_ffff_ffff_ffff,
{
}

/// A path is read as it stands between the white space round it; an answer without a path names none.
pub proof fn paths_are_read(a: Seq<char>, p: Seq<char>, b: Seq<char>, out: Output)
    requires
        forall|i: int| 0 <= i < a.len() ==> text::is_white_space(#[trigger] a[i]),
        forall|i: int| 0 <= i < b.len() ==> text::is_white_space(#[trigger] b[i]),
        p.len() > 0 ==> !text::is_white_space(p[0]) && !text::is_white_space(p[p.len() - 1]),
        lossy_text(out.stdout@) == a + p + b,
    ensures
        pane_path_in(Ok(out)) == if out.success && p.len() > 0 {
            Some(p)
        } else {
            None
        },
        pane_path_in(Err(out.status)) is None,
{
    if p.len() > 0 {
        text::space_around_is_cut_off(a, p, b);
    } else {
        assert(a + p + b =~= a + b);
        assert(text::is_blank(a + p + b)) by {
            assert forall|i: int| 0 <= i < (a + b).len() implies text::is_white_space(
                #[trigger] (a + b)[i],
            ) by {
                if i < a.len() {
                    assert((a + b)[i] == a[i]);
                } else {
                    assert((a + b)[i] == b[i - a.len()]);
                }
            }
        }
    }
}

/// The ids of sessions come in the order of their names, one for each name that is "disbot-" and the
/// id, and none for any other name.
pub proof fn ids_come_in_order(names: Seq<Seq<char>>, name: Seq<char>, id: Seq<char>)
    ensures
        session_ids(Seq::<Seq<char>>::empty()) == Seq::<Seq<char>>::empty(),
        session_ids(names.push("disbot-"@ + id)) == session_ids(names).push(id),
        !"disbot-"@.is_prefix_of(name) ==> session_ids(names.push(name)) == session_ids(names),
        tmux_name(id) == "disbot-"@ + id,
{
    assert(names.push("disbot-"@ + id).drop_last() =~= names);
    assert(names.push(name).drop_last() =~= names);
    text::prefix_and_rest("disbot-"@ + id, "disbot-"@, id);
}

/// What tmux is asked about a session, it is asked about that session.
pub proof fn questions_name_their_session(tmux_name: Seq<char>)
    ensures
        created_at_command(tmux_name) == seq![
            "display-message"@,
            "-p"@,
            "-t"@,
            tmux_name,
            "#{session_created}"@,
        ],
        pane_path_command(tmux_name) == seq![
            "display-message"@,
            "-p"@,
            "-t"@,
            tmux_name,
            "#{pane_current_path}"@,
        ],
{
}

/// Of the names that tmux lists, one in each line, those of disbot's sessions are found, and no other
/// session is. A tmux that ran and failed holds none; one that could not be started says nothing.
pub proof fn listed_sessions_are_found(
    names: Seq<Seq<char>>,
    run: Run,
    r: Result<Vec<String>, Error>,
    id: Seq<char>,
)
    requires
        sessions_told(run, r),
        forall|k: int| 0 <= k < names.len() ==> fits_a_line(#[trigger] names[k]),
        run matches Ok(out) ==> out.success ==> lossy_text(out.stdout@) == listing_of(names),
    ensures
        r is Err <==> run is Err,
        match run {
            Ok(out) => text::texts(r->Ok_0@).contains(id) <==> out.success && names.contains(
                "disbot-"@ + id,
            ),
            Err(why) => r matches Err(e) && e.text() == "tmux list-sessions: "@ + why@,
        },
{
    listing_read_back(names);
    ids_of_names(names, id);
    match run {
        Err(why) => {
            reveal_strlit("tmux list-sessions");
            reveal_strlit(": ");
            reveal_strlit("tmux list-sessions: ");
            assert("tmux list-sessions"@ + ": "@ + why@ =~= "tmux list-sessions: "@ + why@);
        },
        Ok(_) => {},
    }
}

/// A listing holds its names one after the other, each of them with a line feed behind it.
pub proof fn listings_hold_names(name: Seq<char>, names: Seq<Seq<char>>)
    ensures
        listing_of(seq![name] + names) == name.push('\n') + listing_of(names),
        listing_of(Seq::<Seq<char>>::empty()) == Seq::<char>::empty(),
{
    assert((seq![name] + names).drop_first() =~= names);
}

} // verus!
