use disbot::command::{descriptions, Command};
use disbot::error::Error;
use disbot::forward::{follow, Follow, Received, Watch, WatchAction};
use disbot::home::load_owner_from_disk;
use disbot::number::write_hex_pair;
use disbot::registry::Registry;
use disbot::screen::{chunk_text, hash_str, send_screen, trim_tail};
use disbot::session::{Inner, Session};
use disbot::tg::{
    read_control, read_raw, send_failed, sender_id, shown, Control, Plan, Speaker, State,
};
use std::collections::hash_map::DefaultHasher;
use std::hash::{Hash, Hasher};

fn session(id: &str, at: u64) -> Session {
    Session {
        id: id.to_string(),
        cwd: format!("/srv/{}", id),
        cmd: "sh".to_string(),
        created_at: at,
        tmux_name: format!("disbot-{}", id),
        inner: Inner { cols: 120, rows: 40 },
    }
}

fn registry(ids: &[(&str, u64)]) -> Registry {
    let mut r = Registry::new("/m.json".to_string(), "bash".to_string());
    for (id, at) in ids {
        r.created(session(id, *at));
    }
    r
}

fn home() -> Option<String> {
    Some("/home/u".to_string())
}

fn owned(r: &Registry) -> State {
    State::new(Some(7), None, r)
}

fn tell(state: &mut State, r: &mut Registry, words: &str) -> Plan {
    state.dispatch(r, &home(), Some(7), &Some(words.to_string()))
}

fn said(p: Plan) -> String {
    match p {
        Plan::Say(t) => t,
        other => panic!("{:?}", other),
    }
}

fn typed(p: Plan) -> (Vec<Vec<String>>, bool) {
    match p {
        Plan::Type { typing, report } => (typing.commands, report),
        other => panic!("{:?}", other),
    }
}

// Screens

#[test]
fn the_tail_of_a_screen_is_cut_off() {
    assert_eq!(trim_tail("a b\n \n "), "a b");
    assert_eq!(trim_tail("a\t\n"), "a\t");
    assert_eq!(trim_tail(" \n"), "");
    assert_eq!(trim_tail(""), "");
}

#[test]
fn lines_share_chunks_while_they_fit() {
    assert_eq!(chunk_text("ab\ncd\nef", 5), vec!["ab\ncd", "ef"]);
    assert_eq!(chunk_text("ab\ncd\nef", 8), vec!["ab\ncd\nef"]);
    assert_eq!(chunk_text("", 5).len(), 0);
    assert_eq!(chunk_text("\n\nab\n\ncd", 10), vec!["ab\n\ncd"]);
}

#[test]
fn a_short_text_is_one_chunk() {
    assert_eq!(chunk_text("a\n\nb\n", 5), vec!["a\n\nb"]);
    assert_eq!(chunk_text("a\n\n", 3), vec!["a\n"]);
    assert_eq!(chunk_text("abc", 3), vec!["abc"]);
}

#[test]
fn a_line_goes_into_the_chunk_that_has_room_for_it() {
    let text = "one\ntwo two\n\nfour\nfive five\nsix";
    let chunks = chunk_text(text, 12);
    assert_eq!(chunks, vec!["one\ntwo two\n", "four", "five five", "six"]);
    for pair in chunks.windows(2) {
        assert!(pair[0].len() + 1 + pair[1].lines().next().unwrap().len() > 12);
    }
}

#[test]
fn long_lines_are_cut_between_characters() {
    assert_eq!(chunk_text("x\nabcdefg\ny", 3), vec!["x", "abc", "def", "g", "y"]);
    assert_eq!(chunk_text("a\u{e9}\u{e9}b", 4), vec!["a\u{e9}", "\u{e9}b"]);
    assert_eq!(chunk_text("\u{1f600}\u{1f600}", 4), vec!["\u{1f600}", "\u{1f600}"]);
    let text = "\u{20ac}".repeat(3000);
    let chunks = chunk_text(&text, 3800);
    assert!(chunks.iter().all(|c| !c.is_empty() && c.len() <= 3800));
    assert_eq!(chunks.concat(), text);
}

#[test]
fn chunks_hold_the_lines_one_after_the_other() {
    let text = "one\n\nthree\r\nfour four four four\nfive";
    for max in [4usize, 7, 10, 100] {
        let chunks = chunk_text(text, max);
        assert!(chunks.iter().all(|c| !c.is_empty() && c.len() <= max));
        let joined: String = chunks.concat().chars().filter(|c| *c != '\n').collect();
        assert_eq!(joined, "onethreefour four four fourfive");
    }
}

#[test]
fn screens_are_shown_as_blocks_of_code() {
    let m = send_screen("$ echo `a\\b`\n\n");
    assert_eq!(m.len(), 1);
    assert_eq!(m[0].text, "```\n$ echo \\`a\\\\b\\`\n```");
    assert!(m[0].markdown);
    let m = send_screen(" \n\t\n");
    assert_eq!(m.len(), 1);
    assert_eq!(m[0].text, "(empty)");
    assert!(!m[0].markdown);
    let long = "0123456789\n".repeat(700);
    let m = send_screen(&long);
    assert_eq!(m.len(), 3);
    assert!(m.iter().all(|c| c.text.len() <= 3800 + 8));
}

#[test]
fn equal_screens_have_equal_hashes() {
    assert_eq!(hash_str("screen"), hash_str("screen"));
    assert_ne!(hash_str("screen"), hash_str("scream"));
    assert_ne!(hash_str(""), hash_str("a"));
}

#[test]
fn hashes_are_those_of_the_default_hasher() {
    for s in ["", "a", "two words\n"] {
        let mut h = DefaultHasher::new();
        s.hash(&mut h);
        assert_eq!(hash_str(s), h.finish());
    }
}

// Commands

#[test]
fn every_command_is_understood() {
    assert!(matches!(Command::parse("/help"), Some(Command::Help)));
    assert!(matches!(Command::parse("/start"), Some(Command::Start)));
    assert!(matches!(Command::parse("/list"), Some(Command::List)));
    assert!(matches!(Command::parse("/use a"), Some(Command::Use(s)) if s == "a"));
    assert!(matches!(Command::parse("/new a b c"), Some(Command::New(s)) if s == "a b c"));
    assert!(matches!(Command::parse("/kill"), Some(Command::Kill(s)) if s.is_empty()));
    assert!(matches!(Command::parse("/status"), Some(Command::Status)));
    assert!(matches!(Command::parse("/enter"), Some(Command::Enter)));
    assert!(matches!(Command::parse("/esc"), Some(Command::Esc)));
    assert!(matches!(Command::parse("/ctrl  c"), Some(Command::Ctrl(s)) if s == " c"));
    assert!(matches!(Command::parse("/raw 1b@x"), Some(Command::Raw(s)) if s == "1b@x"));
    assert!(matches!(Command::parse("/help me"), Some(Command::Help)));
    assert!(matches!(Command::parse("/use@ a"), Some(Command::Use(s)) if s == "a"));
    assert!(matches!(Command::parse("/use@@x a"), Some(Command::Use(s)) if s == "a"));
}

#[test]
fn other_texts_are_no_commands() {
    for s in ["", "/", "help", "/Help", "/help\nme", "/help@bot", "/helpme", "/nothing", " /help"] {
        assert!(Command::parse(s).is_none());
    }
}

#[test]
fn the_help_lists_every_command() {
    assert_eq!(
        descriptions(),
        "disbot commands:\n\n\
         /help \u{2014} show this help\n\
         /start \u{2014} register / show status\n\
         /list \u{2014} list sessions\n\
         /use \u{2014} switch active session: /use <id>\n\
         /new \u{2014} create session: /new <id> [cwd] [cmd]\n\
         /kill \u{2014} kill session: /kill <id> (or current)\n\
         /status \u{2014} show current screen\n\
         /enter \u{2014} send Enter\n\
         /esc \u{2014} send Escape\n\
         /ctrl \u{2014} send Ctrl-<letter>, e.g. /ctrl c\n\
         /raw \u{2014} send raw hex bytes, e.g. /raw 1b 5b 41"
    );
}

#[test]
fn control_keys_are_read() {
    assert!(matches!(read_control("c"), Control::Byte(3)));
    assert!(matches!(read_control(" Z "), Control::Byte(26)));
    assert!(matches!(read_control("A"), Control::Byte(1)));
    assert!(matches!(read_control("a"), Control::Byte(1)));
    assert!(matches!(read_control("["), Control::NoLetter));
    assert!(matches!(read_control("\u{e9}"), Control::Usage));
    assert!(matches!(read_control(""), Control::Usage));
    assert!(matches!(read_control("cc"), Control::Usage));
}

#[test]
fn raw_bytes_are_read() {
    assert_eq!(read_raw("1b 5b 41"), Some(vec![0x1b, 0x5b, 0x41]));
    assert_eq!(read_raw(" F\t+0a "), Some(vec![0x0f, 0x0a]));
    assert_eq!(read_raw(""), Some(vec![]));
    assert_eq!(read_raw("1b 100"), None);
    assert_eq!(read_raw("0x1b"), None);
    let bytes: Vec<u8> = vec![0, 9, 10, 127, 255];
    let words: Vec<String> = bytes.iter().map(|b| write_hex_pair(*b)).collect();
    assert_eq!(read_raw(&words.join(" ")), Some(bytes));
}

// The bot

#[test]
fn the_state_starts_with_the_oldest_session() {
    let r = registry(&[("young", 9), ("old", 3)]);
    let s = State::new(None, Some(5), &r);
    assert_eq!(s.owner, Some(5));
    assert_eq!(s.current, Some("old".to_string()));
    assert!(!s.expecting_reply);
    let s = State::new(Some(4), Some(5), &registry(&[]));
    assert_eq!(s.owner, Some(4));
    assert_eq!(s.current, None);
}

#[test]
fn the_first_user_becomes_the_owner_and_stays_it() {
    let mut r = registry(&[("a", 1)]);
    let mut s = State::new(None, None, &r);
    assert!(matches!(s.dispatch(&mut r, &home(), None, &None), Plan::Nothing));
    assert_eq!(s.owner, None);
    match s.dispatch(&mut r, &home(), Some(42), &Some("/kill a".to_string())) {
        Plan::Register { file, message } => {
            assert_eq!(file, "42");
            assert_eq!(
                message,
                "registered as owner (42). type /help. /new to create a session."
            );
        }
        other => panic!("{:?}", other),
    }
    assert_eq!(s.owner, Some(42));
    assert!(r.get("a").is_some());
    let p = s.dispatch(&mut r, &home(), Some(43), &Some("/kill a".to_string()));
    assert!(matches!(p, Plan::Nothing));
    assert_eq!(s.owner, Some(42));
    assert!(r.get("a").is_some());
    assert_eq!(s.heard_from(Some(42)), Speaker::Owner);
    assert_eq!(s.heard_from(Some(43)), Speaker::Stranger);
    assert_eq!(s.heard_from(None), Speaker::Stranger);
}

#[test]
fn a_new_owner_is_remembered() {
    let mut r = registry(&[]);
    let mut s = State::new(None, None, &r);
    let file = match s.dispatch(&mut r, &home(), Some(u64::MAX - 4), &None) {
        Plan::Register { file, .. } => file,
        other => panic!("{:?}", other),
    };
    assert_eq!(s.owner, Some(-5));
    let again = State::new(None, load_owner_from_disk(&Some(file)), &r);
    assert_eq!(again.owner, Some(-5));
}

#[test]
fn users_have_signed_numbers() {
    assert_eq!(sender_id(0), 0);
    assert_eq!(sender_id(u64::MAX), -1);
    assert_eq!(sender_id(1 << 63), i64::MIN);
    assert_eq!(sender_id((1 << 63) - 1), i64::MAX);
}

#[test]
fn lines_are_typed_into_the_session() {
    let mut r = registry(&[("a", 1)]);
    let mut s = owned(&r);
    let (commands, report) = typed(tell(&mut s, &mut r, "h\u{e9}"));
    assert_eq!(
        commands,
        vec![vec!["send-keys", "-t", "disbot-a", "-H", "68", "c3", "a9", "0d"]]
    );
    assert!(report);
    assert!(s.expecting_reply);
    let mut none = registry(&[]);
    let mut s = owned(&none);
    assert_eq!(said(tell(&mut s, &mut none, "hi")), "no session. /new <id> <cwd> [cmd]");
    assert!(!s.expecting_reply);
    assert!(matches!(tell(&mut s, &mut none, ""), Plan::Nothing));
    assert!(matches!(s.dispatch(&mut none, &home(), Some(7), &None), Plan::Nothing));
}

#[test]
fn help_and_unknown_commands_are_answered() {
    let mut r = registry(&[]);
    let mut s = owned(&r);
    assert_eq!(said(tell(&mut s, &mut r, "/help")), descriptions());
    assert_eq!(said(tell(&mut s, &mut r, "/what")), "unknown command. /help");
}

#[test]
fn sessions_are_listed_with_a_mark() {
    let mut r = registry(&[("young", 9), ("old", 3)]);
    let mut s = owned(&r);
    assert!(matches!(tell(&mut s, &mut r, "/list"), Plan::List));
    assert_eq!(
        s.list_message(&r),
        "sessions:\n\u{25b6} old \u{2014} /srv/old (sh)\n  young \u{2014} /srv/young (sh)\n"
    );
    assert_eq!(s.list_message(&registry(&[])), "no sessions. /new <id> <cwd> [cmd]");
}

#[test]
fn a_session_is_chosen() {
    let mut r = registry(&[("a", 1), ("b", 2)]);
    let mut s = owned(&r);
    assert_eq!(said(tell(&mut s, &mut r, "/use")), "usage: /use <id>");
    assert_eq!(said(tell(&mut s, &mut r, "/use c")), "no session 'c'");
    assert_eq!(s.current, Some("a".to_string()));
    assert_eq!(said(tell(&mut s, &mut r, "/use  b ")), "active: b");
    assert_eq!(s.current_session(&r).unwrap().id, "b");
}

#[test]
fn a_session_is_created() {
    let mut r = registry(&[("a", 1)]);
    let mut s = owned(&r);
    assert_eq!(said(tell(&mut s, &mut r, "/new ")), "usage: /new <id> [cwd] [cmd]");
    assert_eq!(
        said(tell(&mut s, &mut r, "/new a")),
        "create failed: session 'a' already exists"
    );
    assert_eq!(
        said(tell(&mut s, &mut r, "/new a.b")),
        "create failed: id may only contain a-z, 0-9, '-', '_'"
    );
    match tell(&mut s, &mut r, "/new n ~/x vi more") {
        Plan::Create { id, opening } => {
            assert_eq!(id, "n");
            assert_eq!(opening.cwd, "/home/u/x");
            assert_eq!(opening.cmd, "vi");
            assert_eq!((opening.cols, opening.rows), (120, 40));
        }
        other => panic!("{:?}", other),
    }
    match tell(&mut s, &mut r, "/new n") {
        Plan::Create { opening, .. } => {
            assert_eq!(opening.cwd, "/home/u");
            assert_eq!(opening.cmd, "bash");
        }
        other => panic!("{:?}", other),
    }
    assert_eq!(s.created("n", Err("why".to_string())), "create failed: why");
    assert_eq!(s.current, Some("a".to_string()));
    assert_eq!(s.created("n", Ok(())), "created and active: n");
    assert_eq!(s.current, Some("n".to_string()));
}

#[test]
fn a_session_is_killed() {
    let mut r = registry(&[("a", 1), ("b", 2), ("c", 3)]);
    let mut s = owned(&r);
    match tell(&mut s, &mut r, "/kill") {
        Plan::Kill { id, deletion } => {
            assert_eq!(id, "a");
            assert_eq!(deletion.ending.args, vec!["kill-session", "-t", "disbot-a"]);
            assert_eq!(deletion.ending.socket, "/tmp/disbot-a.sock");
            assert_eq!(deletion.saving.metas.len(), 2);
        }
        other => panic!("{:?}", other),
    }
    assert_eq!(s.killed(&r, "a", Err("disk".to_string())), "kill failed: disk");
    assert_eq!(s.current, Some("a".to_string()));
    assert_eq!(s.killed(&r, "a", Ok(())), "killed: a");
    assert_eq!(s.current, Some("b".to_string()));
    assert!(matches!(tell(&mut s, &mut r, "/kill  c "), Plan::Kill { .. }));
    assert_eq!(s.killed(&r, "c", Ok(())), "killed: c");
    assert_eq!(s.current, Some("b".to_string()));
    assert_eq!(said(tell(&mut s, &mut r, "/kill c")), "kill failed: session not found");
    assert!(matches!(tell(&mut s, &mut r, "/kill b"), Plan::Kill { .. }));
    assert_eq!(s.killed(&r, "b", Ok(())), "killed: b");
    assert_eq!(s.current, None);
    assert_eq!(said(tell(&mut s, &mut r, "/kill ")), "usage: /kill <id>");
}

#[test]
fn keys_are_pressed() {
    let mut r = registry(&[("a", 1)]);
    let mut s = owned(&r);
    let keys = |p: Plan| {
        let (commands, report) = typed(p);
        assert!(!report);
        commands[0][4..].join(" ")
    };
    assert_eq!(keys(tell(&mut s, &mut r, "/esc")), "1b");
    assert_eq!(keys(tell(&mut s, &mut r, "/ctrl c")), "03");
    assert!(!s.expecting_reply);
    assert_eq!(keys(tell(&mut s, &mut r, "/enter")), "0d");
    assert!(s.expecting_reply);
    s.expecting_reply = false;
    assert_eq!(keys(tell(&mut s, &mut r, "/raw 1B 5b 41")), "1b 5b 41");
    assert!(s.expecting_reply);
    assert_eq!(said(tell(&mut s, &mut r, "/ctrl")), "usage: /ctrl c");
    assert_eq!(said(tell(&mut s, &mut r, "/ctrl 1")), "ctrl letter must be a-z");
    assert_eq!(said(tell(&mut s, &mut r, "/raw")), "usage: /raw 1b 5b 41");
    assert_eq!(said(tell(&mut s, &mut r, "/raw xy")), "usage: /raw 1b 5b 41");
}

#[test]
fn keys_without_a_session_do_nothing() {
    let mut r = registry(&[]);
    let mut s = owned(&r);
    for c in ["/enter", "/esc", "/ctrl c", "/raw 0d"] {
        assert!(matches!(tell(&mut s, &mut r, c), Plan::Nothing));
        assert!(!s.expecting_reply);
    }
    for c in ["/start", "/status"] {
        assert_eq!(said(tell(&mut s, &mut r, c)), "no active session. /list");
    }
}

#[test]
fn the_screen_is_shown() {
    let mut r = registry(&[("a", 1)]);
    let mut s = owned(&r);
    for c in ["/start", "/status"] {
        match tell(&mut s, &mut r, c) {
            Plan::Show(args) => assert_eq!(
                args,
                vec!["capture-pane", "-p", "-J", "-t", "disbot-a", "-S", "-25"]
            ),
            other => panic!("{:?}", other),
        }
        assert!(!s.expecting_reply);
    }
    assert_eq!(shown(Ok("x\n".to_string()))[0].text, "```\nx\n```");
    let m = shown(Err(Error::Capture("gone".to_string())));
    assert_eq!(m[0].text, "capture failed: capture-pane failed: gone");
    assert!(!m[0].markdown);
    assert_eq!(send_failed(&Error::NotFound), "send failed: session not found");
}

// Passing on

const SECOND: u128 = 1_000_000_000;

#[test]
fn there_is_something_to_follow_once_there_is_an_owner_and_a_session() {
    let r = registry(&[("a", 1)]);
    assert!(matches!(follow(&State::new(None, None, &r), &r), Follow::Wait(2)));
    let none = registry(&[]);
    assert!(matches!(follow(&owned(&none), &none), Follow::Wait(1)));
    let f = follow(&owned(&r), &r);
    assert!(matches!(f, Follow::Watch { chat: 7, id } if id == "a"));
}

#[test]
fn a_screen_is_looked_at_when_the_session_is_at_rest() {
    let r = registry(&[("a", 1)]);
    let a = session("a", 1);
    let mut s = owned(&r);
    let mut w = Watch::new("a".to_string(), 0);
    assert!(w.goes_on(&s));
    s.expecting_reply = true;
    let now = 10 * SECOND;
    assert!(matches!(w.take_in(&mut s, &a, Received::Idle, now), WatchAction::GoOn));
    assert!(matches!(w.take_in(&mut s, &a, Received::Piece, now), WatchAction::Typing));
    assert!(matches!(w.take_in(&mut s, &a, Received::Idle, now + SECOND), WatchAction::GoOn));
    let late = now + SECOND + SECOND / 2;
    match w.take_in(&mut s, &a, Received::Idle, late) {
        WatchAction::Capture(args) => assert_eq!(
            args,
            vec!["capture-pane", "-p", "-J", "-t", "disbot-a", "-S", "-40"]
        ),
        other => panic!("{:?}", other),
    }
    assert!(!s.expecting_reply);
    assert!(matches!(w.take_in(&mut s, &a, Received::Piece, late), WatchAction::GoOn));
    let later = late + 2 * SECOND;
    assert!(matches!(w.take_in(&mut s, &a, Received::Idle, later), WatchAction::GoOn));
    assert!(!w.activity_pending);
    assert!(matches!(w.take_in(&mut s, &a, Received::Lagged(3), later), WatchAction::GoOn));
    assert!(matches!(w.take_in(&mut s, &a, Received::Closed, later), WatchAction::Stop));
    s.current = None;
    assert!(!w.goes_on(&s));
}

#[test]
fn the_sign_of_work_is_given_now_and_then() {
    let r = registry(&[("a", 1)]);
    let a = session("a", 1);
    let mut s = owned(&r);
    let mut w = Watch::new("a".to_string(), 0);
    assert!(matches!(w.take_in(&mut s, &a, Received::Piece, 0), WatchAction::Typing));
    assert!(matches!(w.take_in(&mut s, &a, Received::Piece, 4 * SECOND), WatchAction::GoOn));
    let after = 4 * SECOND + 1;
    assert!(matches!(w.take_in(&mut s, &a, Received::Piece, after), WatchAction::Typing));
}

#[test]
fn a_screen_is_passed_on_once() {
    let mut w = Watch::new("a".to_string(), 0);
    let m = w.captured(Ok("$ ls\n\n".to_string()));
    assert_eq!(m.len(), 1);
    assert_eq!(m[0].text, "```\n$ ls\n```");
    assert_eq!(w.captured(Ok("$ ls \n".to_string())).len(), 0);
    assert_eq!(w.captured(Ok(" \n".to_string())).len(), 0);
    assert_eq!(w.captured(Err(Error::NotFound)).len(), 0);
    assert_eq!(w.captured(Ok("$ pwd".to_string())).len(), 1);
    assert_eq!(w.captured(Ok("$ ls".to_string())).len(), 1);
}

#[test]
fn news_is_judged_by_its_hash() {
    let mut w = Watch::new("a".to_string(), 0);
    assert!(!w.judge(0, "x"));
    assert!(!w.judge(5, " \t"));
    assert!(w.judge(5, "x"));
    assert!(!w.judge(5, "x"));
    assert!(w.judge(6, "x"));
    assert_eq!(w.last_hash, 6);
}
