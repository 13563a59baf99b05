//! The commands that the owner gives to the bot.

use teloxide::utils::command::{CommandDescription, CommandDescriptions};
use vstd::prelude::*;
use crate::text;

verus! {

/// A command, with the text behind it where it takes some.
#[derive(Debug)]
pub enum Command {
    Help,
    Start,
    List,
    Use(String),
    New(String),
    Kill(String),
    Status,
    Enter,
    Esc,
    Ctrl(String),
    Raw(String),
}

/// How many characters `s` has before the first `c`.
pub open spec fn until(s: Seq<char>, c: char) -> nat
    decreases s.len(),
{
    if s.len() == 0 || s[0] == c {
        0
    } else {
        1 + until(s.drop_first(), c)
    }
}

/// The part of a text before its first space.
pub open spec fn head(s: Seq<char>) -> Seq<char> {
    s.take(until(s, ' ') as int)
}

/// The part of a text behind its first space; nothing, if it has none.
pub open spec fn tail(s: Seq<char>) -> Seq<char> {
    if until(s, ' ') < s.len() {
        s.skip(until(s, ' ') as int + 1)
    } else {
        seq![]
    }
}

/// The word that names a command: what stands before an at sign in the part of the text before its
/// first space.
pub open spec fn command_word(s: Seq<char>) -> Seq<char> {
    head(s).take(until(head(s), '@') as int)
}

/// Whether a command is not meant for some other bot: nothing stands between an at sign and the
/// next one or the end.
pub open spec fn for_this_bot(s: Seq<char>) -> bool {
    let u = until(head(s), '@') as int;
    u >= head(s).len() || u + 1 == head(s).len() || head(s)[u + 1] == '@'
}

/// The words that name commands.
pub open spec fn command_words() -> Seq<Seq<char>> {
    seq![
        "/help"@,
        "/start"@,
        "/list"@,
        "/use"@,
        "/new"@,
        "/kill"@,
        "/status"@,
        "/enter"@,
        "/esc"@,
        "/ctrl"@,
        "/raw"@,
    ]
}

impl Command {
    /// The word that names a command.
    pub open spec fn word(self) -> Seq<char> {
        match self {
            Command::Help => "/help"@,
            Command::Start => "/start"@,
            Command::List => "/list"@,
            Command::Use(_) => "/use"@,
            Command::New(_) => "/new"@,
            Command::Kill(_) => "/kill"@,
            Command::Status => "/status"@,
            Command::Enter => "/enter"@,
            Command::Esc => "/esc"@,
            Command::Ctrl(_) => "/ctrl"@,
            Command::Raw(_) => "/raw"@,
        }
    }

    /// The text behind a command that takes some.
    pub open spec fn args(self) -> Option<Seq<char>> {
        match self {
            Command::Use(s) => Some(s@),
            Command::New(s) => Some(s@),
            Command::Kill(s) => Some(s@),
            Command::Ctrl(s) => Some(s@),
            Command::Raw(s) => Some(s@),
            _ => None,
        }
    }

    /// Whether a text gives this command.
    pub open spec fn is_given_by(self, s: Seq<char>) -> bool {
        &&& for_this_bot(s)
        &&& self.word() == command_word(s)
        &&& self.args() is Some ==> self.args() == Some(tail(s))
    }

    /// Reads a command. There is none if the text names no command, or some other bot.
    pub fn parse(s: &str) -> (r: Option<Command>)
        ensures
            match r {
                Some(c) => c.is_given_by(s@),
                None => !for_this_bot(s@) || !command_words().contains(command_word(s@)),
            },
    {
        let v = text::chars_of(s);
        let n = find(&v, 0, v.len(), ' ');
        let u = find(&v, 0, n, '@');
        proof {
            assert(v@.subrange(0, v@.len() as int) =~= v@);
            assert(v@.subrange(0, n as int) =~= head(v@));
            assert(v@.subrange(0, u as int) =~= command_word(v@));
        }
        if u < n && u + 1 < n && v[u + 1] != '@' {
            assert(head(v@)[u + 1] == v@[u + 1]);
            return None;
        }
        proof {
            if u + 1 < n {
                assert(head(v@)[u + 1] == v@[u + 1]);
            }
        }
        let word = text::text_between(&v, 0, u);
        let w = word.as_str();
        let args = if n < v.len() {
            text::text_between(&v, n + 1, v.len())
        } else {
            String::new()
        };
        assert(args@ =~= tail(v@));
        assert(for_this_bot(v@));
        if text::same(w, "/help") {
            Some(Command::Help)
        } else if text::same(w, "/start") {
            Some(Command::Start)
        } else if text::same(w, "/list") {
            Some(Command::List)
        } else if text::same(w, "/use") {
            Some(Command::Use(args))
        } else if text::same(w, "/new") {
            Some(Command::New(args))
        } else if text::same(w, "/kill") {
            Some(Command::Kill(args))
        } else if text::same(w, "/status") {
            Some(Command::Status)
        } else if text::same(w, "/enter") {
            Some(Command::Enter)
        } else if text::same(w, "/esc") {
            Some(Command::Esc)
        } else if text::same(w, "/ctrl") {
            Some(Command::Ctrl(args))
        } else if text::same(w, "/raw") {
            Some(Command::Raw(args))
        } else {
            None
        }
    }
}

/// Where the first `c` of the characters `from..to` of `v` is; `to`, if there is none.
fn find(v: &Vec<char>, from: usize, to: usize, c: char) -> (r: usize)
    requires
        from <= to <= v@.len(),
    ensures
        from <= r <= to,
        r - from == until(v@.subrange(from as int, to as int), c),
{
    let mut i: usize = from;
    while i < to && v[i] != c
        invariant
            from <= i <= to <= v@.len(),
            until(v@.subrange(from as int, to as int), c) == (i - from) + until(
                v@.subrange(i as int, to as int),
                c,
            ),
        decreases to - i,
    {
        assert(v@.subrange(i as int, to as int).drop_first() =~= v@.subrange(i + 1, to as int));
        i += 1;
    }
    i
}

proof fn lemma_until(s: Seq<char>, n: int, c: char)
    requires
        0 <= n <= s.len(),
        forall|i: int| 0 <= i < n ==> #[trigger] s[i] != c,
        n < s.len() ==> s[n] == c,
    ensures
        until(s, c) == n,
    decreases s.len(),
{
    if n > 0 {
        let d = s.drop_first();
        assert forall|i: int| 0 <= i < n - 1 implies #[trigger] d[i] != c by {
            assert(d[i] == s[i + 1]);
        }
        lemma_until(d, n - 1, c);
    }
}

/// A word without spaces and at signs, with a space and any text behind it, is read as that word
/// and that text; the word alone is read as the word and no text.
pub proof fn word_and_text_read_back(word: Seq<char>, args: Seq<char>)
    requires
        forall|i: int| 0 <= i < word.len() ==> #[trigger] word[i] != ' ' && word[i] != '@',
    ensures
        for_this_bot(word.push(' ') + args),
        command_word(word.push(' ') + args) == word,
        tail(word.push(' ') + args) == args,
        for_this_bot(word),
        command_word(word) == word,
        tail(word) == Seq::<char>::empty(),
{
    let n = word.len() as int;
    let s = word.push(' ') + args;
    lemma_until(s, n, ' ');
    assert(head(s) =~= word);
    assert(tail(s) =~= args);
    lemma_until(word, n, '@');
    assert(command_word(s) =~= word);
    lemma_until(word, n, ' ');
    assert(head(word) =~= word);
    assert(command_word(word) =~= word);
}

/// The word of every command is one of those that name commands.
pub proof fn given_is_known(c: Command, s: Seq<char>)
    requires
        c.is_given_by(s),
    ensures
        command_words().contains(command_word(s)),
{
    let all = command_words();
    assert(all[0] == "/help"@ && all[1] == "/start"@ && all[2] == "/list"@ && all[3] == "/use"@
        && all[4] == "/new"@ && all[5] == "/kill"@ && all[6] == "/status"@ && all[7] == "/enter"@
        && all[8] == "/esc"@ && all[9] == "/ctrl"@ && all[10] == "/raw"@);
}

proof fn lemma_words_differ(a: Command, b: Command)
    requires
        a.word() == b.word(),
    ensures
        a.args() is Some <==> b.args() is Some,
        a is Use <==> b is Use,
        a is New <==> b is New,
        a is Kill <==> b is Kill,
        a is Ctrl <==> b is Ctrl,
        a is Raw <==> b is Raw,
        a.args() is None ==> a == b,
{
    reveal_strlit("/help");
    reveal_strlit("/start");
    reveal_strlit("/list");
    reveal_strlit("/use");
    reveal_strlit("/new");
    reveal_strlit("/kill");
    reveal_strlit("/status");
    reveal_strlit("/enter");
    reveal_strlit("/esc");
    reveal_strlit("/ctrl");
    reveal_strlit("/raw");
    assert("/help"@.len() == 5 && "/help"@[1] == 'h');
    assert("/start"@.len() == 6 && "/start"@[1] == 's');
    assert("/list"@.len() == 5 && "/list"@[1] == 'l');
    assert("/use"@.len() == 4 && "/use"@[1] == 'u');
    assert("/new"@.len() == 4 && "/new"@[1] == 'n');
    assert("/kill"@.len() == 5 && "/kill"@[1] == 'k');
    assert("/status"@.len() == 7 && "/status"@[1] == 's');
    assert("/enter"@.len() == 6 && "/enter"@[1] == 'e');
    assert("/esc"@.len() == 4 && "/esc"@[1] == 'e');
    assert("/ctrl"@.len() == 5 && "/ctrl"@[1] == 'c');
    assert("/raw"@.len() == 4 && "/raw"@[1] == 'r');
    assert(a.word().len() == b.word().len() && a.word()[1] == b.word()[1]);
}

/// A text gives one command at most: two commands that it gives are of the same kind, and the text
/// behind them is the same.
pub proof fn one_command_in_a_text(a: Command, b: Command, s: Seq<char>)
    requires
        a.is_given_by(s),
        b.is_given_by(s),
    ensures
        a.word() == b.word(),
        a.args() == b.args(),
        a.args() is None ==> a == b,
{
    lemma_words_differ(a, b);
}

/// Every command is understood: its word, with a space and any text behind it, gives the command.
pub proof fn commands_read_back(c: Command, args: Seq<char>)
    requires
        c.args() is Some ==> c.args() == Some(args),
    ensures
        c.is_given_by(c.word().push(' ') + args),
        command_words().contains(c.word()),
{
    reveal_strlit("/help");
    reveal_strlit("/start");
    reveal_strlit("/list");
    reveal_strlit("/use");
    reveal_strlit("/new");
    reveal_strlit("/kill");
    reveal_strlit("/status");
    reveal_strlit("/enter");
    reveal_strlit("/esc");
    reveal_strlit("/ctrl");
    reveal_strlit("/raw");
    let w = c.word();
    word_and_text_read_back(w, args);
    given_is_known(c, w.push(' ') + args);
}

// ---------------------------------------------------------------------------------------------
// Help
// ---------------------------------------------------------------------------------------------

/// Names and descriptions of commands, as text.
pub open spec fn named(list: Seq<(&str, &str)>) -> Seq<(Seq<char>, Seq<char>)> {
    Seq::new(list.len(), |i: int| (list[i].0@, list[i].1@))
}

/// One line for each of a list of commands: the prefix, the name, and the description behind a
/// dash, if there is one.
pub open spec fn described(prefix: Seq<char>, list: Seq<(Seq<char>, Seq<char>)>) -> Seq<char>
    decreases list.len(),
{
    if list.len() == 0 {
        seq![]
    } else {
        let before = described(prefix, list.drop_last());
        let line = prefix + list.last().0 + if list.last().1.len() == 0 {
            seq![]
        } else {
            " — "@ + list.last().1
        };
        if list.len() == 1 {
            line
        } else {
            before.push('\n') + line
        }
    }
}

/// `teloxide::utils::command::CommandDescriptions` with a global description, as it is displayed:
/// the global description, an empty line, and one line for each command, which is its prefix, its
/// name, and its description behind a dash, unless it is empty.
#[verifier::external_body]
fn describe_commands(prefix: &str, about: &str, commands: &[(&str, &str)]) -> (r: String)
    ensures
        r@ == about@ + "\n\n"@ + described(prefix@, named(commands@)),
{
    let list: Vec<CommandDescription> = commands.iter().map(
        |c| CommandDescription { prefix, command: c.0, aliases: &[], description: c.1 },
    ).collect();
    CommandDescriptions::new(&list).global_description(about).to_string()
}

/// The commands and what they do.
pub open spec fn command_list() -> Seq<(Seq<char>, Seq<char>)> {
    seq![
        ("help"@, "show this help"@),
        ("start"@, "register / show status"@),
        ("list"@, "list sessions"@),
        ("use"@, "switch active session: /use <id>"@),
        ("new"@, "create session: /new <id> [cwd] [cmd]"@),
        ("kill"@, "kill session: /kill <id> (or current)"@),
        ("status"@, "show current screen"@),
        ("enter"@, "send Enter"@),
        ("esc"@, "send Escape"@),
        ("ctrl"@, "send Ctrl-<letter>, e.g. /ctrl c"@),
        ("raw"@, "send raw hex bytes, e.g. /raw 1b 5b 41"@),
    ]
}

/// What the commands are, in words.
pub open spec fn help_text() -> Seq<char> {
    "disbot commands:"@ + "\n\n"@ + described("/"@, command_list())
}

/// Tells what the commands are.
pub fn descriptions() -> (r: String)
    ensures
        r@ == help_text(),
{
    let list = [
        ("help", "show this help"),
        ("start", "register / show status"),
        ("list", "list sessions"),
        ("use", "switch active session: /use <id>"),
        ("new", "create session: /new <id> [cwd] [cmd]"),
        ("kill", "kill session: /kill <id> (or current)"),
        ("status", "show current screen"),
        ("enter", "send Enter"),
        ("esc", "send Escape"),
        ("ctrl", "send Ctrl-<letter>, e.g. /ctrl c"),
        ("raw", "send raw hex bytes, e.g. /raw 1b 5b 41"),
    ];
    assert(named(list@) =~= command_list());
    describe_commands("/", "disbot commands:", &list)
}

// ---------------------------------------------------------------------------------------------
// Who is meant, and what is known
// ---------------------------------------------------------------------------------------------

/// A command that names another bot behind an at sign is not for this one; a bare at sign names none.
pub proof fn other_bots_are_not_meant(word: Seq<char>, bot: Seq<char>, args: Seq<char>)
    requires
        forall|i: int| 0 <= i < word.len() ==> #[trigger] word[i] != ' ' && word[i] != '@',
        forall|i: int| 0 <= i < bot.len() ==> #[trigger] bot[i] != ' ' && bot[i] != '@',
    ensures
        for_this_bot(word.push('@') + bot) <==> bot.len() == 0,
        for_this_bot((word.push('@') + bot).push(' ') + args) <==> bot.len() == 0,
        command_word((word.push('@') + bot).push(' ') + args) == word,
        tail((word.push('@') + bot).push(' ') + args) == args,
{
    let h = word.push('@') + bot;
    let s = h.push(' ') + args;
    let n = word.len() as int;
    assert forall|i: int| 0 <= i < h.len() implies #[trigger] h[i] != ' ' by {
        if i < n {
            assert(h[i] == word[i]);
        } else if i > n {
            assert(h[i] == bot[i - n - 1]);
        }
    }
    assert forall|i: int| 0 <= i < h.len() implies #[trigger] s[i] != ' ' by {
        assert(s[i] == h[i]);
    }
    lemma_until(s, h.len() as int, ' ');
    lemma_until(h, h.len() as int, ' ');
    assert(head(s) =~= h);
    assert(head(h) =~= h);
    assert(tail(s) =~= args);
    assert forall|i: int| 0 <= i < n implies #[trigger] h[i] != '@' by {
        assert(h[i] == word[i]);
    }
    assert(h[n] == '@');
    lemma_until(h, n, '@');
    assert(command_word(s) =~= word);
    if bot.len() > 0 {
        assert(h[n + 1] == bot[0]);
    }
}

/// The word of every command starts with a slash.
pub proof fn word_starts_with_a_slash(c: Command)
    ensures
        c.word().len() > 1,
        c.word()[0] == '/',
{
    reveal_strlit("/help");
    reveal_strlit("/start");
    reveal_strlit("/list");
    reveal_strlit("/use");
    reveal_strlit("/new");
    reveal_strlit("/kill");
    reveal_strlit("/status");
    reveal_strlit("/enter");
    reveal_strlit("/esc");
    reveal_strlit("/ctrl");
    reveal_strlit("/raw");
}

/// There are eleven words for commands, and each of them is the word of a command.
pub proof fn words_are_those_of_commands(w: Seq<char>, any: String) -> (c: Command)
    requires
        command_words().contains(w),
    ensures
        c.word() == w,
        w == "/help"@ || w == "/start"@ || w == "/list"@ || w == "/use"@ || w == "/new"@ || w
            == "/kill"@ || w == "/status"@ || w == "/enter"@ || w == "/esc"@ || w == "/ctrl"@ || w
            == "/raw"@,
{
    let i = choose|i: int| 0 <= i < command_words().len() && command_words()[i] == w;
    if i == 0 {
        Command::Help
    } else if i == 1 {
        Command::Start
    } else if i == 2 {
        Command::List
    } else if i == 3 {
        Command::Use(any)
    } else if i == 4 {
        Command::New(any)
    } else if i == 5 {
        Command::Kill(any)
    } else if i == 6 {
        Command::Status
    } else if i == 7 {
        Command::Enter
    } else if i == 8 {
        Command::Esc
    } else if i == 9 {
        Command::Ctrl(any)
    } else {
        Command::Raw(any)
    }
}

} // verus!
