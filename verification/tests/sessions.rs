use disbot::error::Error;
use disbot::output::read_piece;
use disbot::registry::{Registry, SessionMeta};
use disbot::session::{
    captured, input_sent, resized, validate_id, OpenAction, OpenReply, Opening, Progress, Session,
    Typing, TypingProgress, READ_CHUNK,
};
use disbot::sync::{Syncing, SyncAction, SyncReply};
use disbot::tmux::{
    ask_pane_path, ask_sessions, list_disbot_tmux_sessions, pane_current_path, session_created_at,
    tmux, Output, Run,
};

fn ran(stdout: &str) -> Run {
    Ok(Output {
        success: true,
        status: "exit status: 0".to_string(),
        stdout: stdout.as_bytes().to_vec(),
        stderr: Vec::new(),
    })
}

fn failed(stderr: &str) -> Run {
    Ok(Output {
        success: false,
        status: "exit status: 1".to_string(),
        stdout: Vec::new(),
        stderr: stderr.as_bytes().to_vec(),
    })
}

fn opening(id: &str) -> Opening {
    Session::open(id.to_string(), "/tmp".to_string(), "sh".to_string(), 120, 40).unwrap()
}

fn next(p: Progress) -> Opening {
    match p {
        Progress::Next(o) => o,
        _ => panic!("the opening is over"),
    }
}

fn args(a: OpenAction) -> Vec<String> {
    match a {
        OpenAction::Tmux(v) => v,
        _ => panic!("not a command"),
    }
}

/// A session that tmux held already, created at `at`.
fn held(id: &str, cwd: &str, cmd: &str, at: u64) -> Session {
    let o = Session::open(id.to_string(), cwd.to_string(), cmd.to_string(), 120, 40).unwrap();
    finish(o, at)
}

fn finish(o: Opening, at: u64) -> Session {
    let o = next(o.step(OpenReply::Directory(true)));
    let o = next(o.step(OpenReply::Bound(Ok(()))));
    let o = next(o.step(OpenReply::Ran(ran(""))));
    let o = next(o.step(OpenReply::Ran(ran(&format!("{}\n", at)))));
    let o = next(o.step(OpenReply::Ran(ran(""))));
    match o.step(OpenReply::Ran(ran(""))) {
        Progress::Opened(s) => s,
        _ => panic!("not opened"),
    }
}

#[test]
fn ids_of_one_to_64_plain_characters_are_allowed() {
    assert!(validate_id("a").is_ok());
    assert!(validate_id("A-z_09").is_ok());
    assert!(validate_id(&"x".repeat(64)).is_ok());
    assert!(matches!(validate_id(""), Err(Error::IdLength)));
    assert!(matches!(validate_id(&"x".repeat(65)), Err(Error::IdLength)));
    assert!(matches!(validate_id("a b"), Err(Error::IdCharacters)));
    assert!(matches!(validate_id("\u{e9}"), Err(Error::IdCharacters)));
    assert!(matches!(validate_id(&"\u{e9}".repeat(33)), Err(Error::IdLength)));
}

#[test]
fn errors_have_words() {
    let s = |t: &str| t.to_string();
    assert_eq!(Error::IdLength.message(), "id length must be 1..=64");
    assert_eq!(Error::IdCharacters.message(), "id may only contain a-z, 0-9, '-', '_'");
    assert_eq!(
        Error::NoDirectory(s("/x")).message(),
        "cwd does not exist or is not a directory: /x"
    );
    assert_eq!(
        Error::Bind { path: s("/tmp/a.sock"), cause: s("in use") }.message(),
        "bind \"/tmp/a.sock\": in use"
    );
    assert_eq!(
        Error::Step { step: s("tmux send-keys"), cause: s("no") }.message(),
        "tmux send-keys: no"
    );
    assert_eq!(Error::Capture(s("gone")).message(), "capture-pane failed: gone");
    assert_eq!(Error::AlreadyExists(s("a")).message(), "session 'a' already exists");
    assert_eq!(Error::NotFound.message(), "session not found");
    assert_eq!(Error::PipeClosed.message(), "pipe-pane closed");
}

#[test]
fn a_session_that_tmux_holds_is_taken_over() {
    let o = opening("web");
    assert!(matches!(o.action(), OpenAction::CheckDirectory(p) if p == "/tmp"));
    let o = next(o.step(OpenReply::Directory(true)));
    assert!(matches!(o.action(), OpenAction::Bind(p) if p == "/tmp/disbot-web.sock"));
    let o = next(o.step(OpenReply::Bound(Ok(()))));
    assert_eq!(args(o.action()), vec!["has-session", "-t", "disbot-web"]);
    let o = next(o.step(OpenReply::Ran(ran(""))));
    assert_eq!(
        args(o.action()),
        vec!["display-message", "-p", "-t", "disbot-web", "#{session_created}"]
    );
    let o = next(o.step(OpenReply::Ran(ran("1700000000\n"))));
    assert_eq!(args(o.action()), vec!["pipe-pane", "-t", "disbot-web"]);
    let o = next(o.step(OpenReply::Ran(failed("no pipe"))));
    assert_eq!(
        args(o.action()),
        vec!["pipe-pane", "-t", "disbot-web", "-O", "exec nc -U /tmp/disbot-web.sock"]
    );
    let s = match o.step(OpenReply::Ran(ran(""))) {
        Progress::Opened(s) => s,
        _ => panic!("not opened"),
    };
    assert_eq!(s.id, "web");
    assert_eq!(s.cwd, "/tmp");
    assert_eq!(s.cmd, "sh");
    assert_eq!(s.tmux_name, "disbot-web");
    assert_eq!(s.created_at, 1700000000);
    assert_eq!((s.inner.cols, s.inner.rows), (120, 40));
}

#[test]
fn a_session_that_tmux_does_not_hold_is_made() {
    let o = next(opening("web").step(OpenReply::Directory(true)));
    let o = next(o.step(OpenReply::Bound(Ok(()))));
    let o = next(o.step(OpenReply::Ran(failed("no such session"))));
    assert_eq!(args(o.action()), vec!["set-option", "-g", "focus-events", "on"]);
    let o = next(o.step(OpenReply::Ran(failed("no server"))));
    assert_eq!(
        args(o.action()),
        vec![
            "new-session", "-d", "-s", "disbot-web", "-c", "/tmp", "-x", "120", "-y", "40", "sh"
        ]
    );
    let o = next(o.step(OpenReply::Ran(ran(""))));
    assert!(matches!(o.action(), OpenAction::ReadClock));
    let o = next(o.step(OpenReply::Clock(77)));
    let o = next(o.step(OpenReply::Ran(ran(""))));
    match o.step(OpenReply::Ran(ran(""))) {
        Progress::Opened(s) => assert_eq!(s.created_at, 77),
        _ => panic!("not opened"),
    }
}

#[test]
fn openings_fail_where_they_have_to() {
    match opening("a").step(OpenReply::Directory(false)) {
        Progress::Failed(e) => {
            assert_eq!(e.message(), "cwd does not exist or is not a directory: /tmp")
        }
        _ => panic!(),
    }
    let o = next(opening("a").step(OpenReply::Directory(true)));
    match o.step(OpenReply::Bound(Err("denied".to_string()))) {
        Progress::Failed(e) => assert_eq!(e.message(), "bind \"/tmp/disbot-a.sock\": denied"),
        _ => panic!(),
    }
    let o = next(opening("a").step(OpenReply::Directory(true)));
    let o = next(o.step(OpenReply::Bound(Ok(()))));
    let o = next(o.step(OpenReply::Ran(failed(""))));
    let o = next(o.step(OpenReply::Ran(ran(""))));
    match o.step(OpenReply::Ran(failed(" bad command \n"))) {
        Progress::Failed(e) => assert_eq!(
            e.message(),
            "tmux new-session: tmux [\"new-session\", \"-d\", \"-s\", \"disbot-a\", \"-c\", \
             \"/tmp\", \"-x\", \"120\", \"-y\", \"40\", \"sh\"] failed (exit status: 1): bad command"
        ),
        _ => panic!(),
    }
}

#[test]
fn a_reply_to_something_else_changes_nothing() {
    let o = next(opening("a").step(OpenReply::Clock(1)));
    assert!(matches!(o.action(), OpenAction::CheckDirectory(_)));
}

#[test]
fn answers_of_tmux_are_read() {
    assert_eq!(session_created_at(&ran(" 12\n")), Some(12));
    assert_eq!(session_created_at(&ran("soon")), None);
    assert_eq!(session_created_at(&failed("12")), None);
    assert_eq!(pane_current_path(&ran("/srv/x\n")), Some("/srv/x".to_string()));
    assert_eq!(pane_current_path(&ran(" \n")), None);
    assert_eq!(pane_current_path(&Err("no tmux".to_string())), None);
    assert_eq!(
        ask_pane_path("disbot-a"),
        vec!["display-message", "-p", "-t", "disbot-a", "#{pane_current_path}"]
    );
    assert_eq!(ask_sessions(), vec!["list-sessions", "-F", "#{session_name}"]);
}

#[test]
fn sessions_of_tmux_are_found_by_their_names() {
    let ids = list_disbot_tmux_sessions(&ran("disbot-a\nother\ndisbot-b-c\nxdisbot-d\n")).unwrap();
    assert_eq!(ids, vec!["a", "b-c"]);
    assert_eq!(list_disbot_tmux_sessions(&failed("no server running")).unwrap().len(), 0);
    let e = list_disbot_tmux_sessions(&Err("not found".to_string())).unwrap_err();
    assert_eq!(e.message(), "tmux list-sessions: not found");
}

#[test]
fn bytes_that_are_no_text_are_replaced() {
    let run = Ok(Output {
        success: true,
        status: String::new(),
        stdout: vec![b'd', b'i', b's', b'b', b'o', b't', b'-', 0xff, b'\n'],
        stderr: Vec::new(),
    });
    assert_eq!(list_disbot_tmux_sessions(&run).unwrap(), vec!["\u{fffd}"]);
}

#[test]
fn failed_commands_are_told() {
    let a = vec!["x".to_string(), "a\"b".to_string()];
    assert!(tmux(&a, &ran("")).is_ok());
    assert_eq!(tmux(&a, &Err("gone".to_string())).unwrap_err(), "spawn tmux: gone");
    assert_eq!(
        tmux(&a, &failed("why\n")).unwrap_err(),
        "tmux [\"x\", \"a\\\"b\"] failed (exit status: 1): why"
    );
    assert_eq!(
        input_sent(&a, &Err("gone".to_string())).unwrap_err().message(),
        "tmux send-keys: spawn tmux: gone"
    );
    assert_eq!(
        resized(&a, &Err("gone".to_string())).unwrap_err().message(),
        "tmux resize-window: spawn tmux: gone"
    );
}

#[test]
fn input_is_typed_in_pieces() {
    let s = held("a", "/tmp", "sh", 1);
    assert_eq!(s.send_input(&[]).commands.len(), 0);
    assert_eq!(
        s.send_input(&[0x1b, 0x5b, 0x41]).commands,
        vec![vec!["send-keys", "-t", "disbot-a", "-H", "1b", "5b", "41"]]
    );
    let data: Vec<u8> = (0..600u32).map(|i| (i % 256) as u8).collect();
    let commands = s.send_input(&data).commands;
    assert_eq!(commands.len(), 3);
    let mut typed: Vec<u8> = Vec::new();
    for c in &commands {
        assert!(c.len() > 4 && c.len() <= 260);
        for digits in &c[4..] {
            typed.push(u8::from_str_radix(digits, 16).unwrap());
        }
    }
    assert_eq!(typed, data);
    assert_eq!(
        s.nudge_redraw().commands,
        vec![vec!["send-keys", "-t", "disbot-a", "-H", "0c"]]
    );
}

/// Types until a command fails, the one at `fails_at`: how many were given, and how it ended.
fn type_until(mut t: Typing, fails_at: usize) -> (Vec<u8>, usize, Result<(), Error>) {
    let mut done: Vec<u8> = Vec::new();
    let mut given = 0;
    loop {
        let args = match t.action() {
            Some(args) => args.clone(),
            None => return (done, given, Ok(())),
        };
        let how = if given == fails_at { failed("no pane") } else { ran("") };
        given += 1;
        t = match t.step(&how) {
            TypingProgress::Next(n) => n,
            TypingProgress::Failed(e) => return (done, given, Err(e)),
        };
        for digits in &args[4..] {
            done.push(u8::from_str_radix(digits, 16).unwrap());
        }
    }
}

#[test]
fn nothing_is_typed_after_a_failure() {
    let s = held("a", "/tmp", "sh", 1);
    let data: Vec<u8> = (0..600u32).map(|i| (i % 251) as u8).collect();
    for k in 0..3usize {
        let (done, given, end) = type_until(s.send_input(&data), k);
        assert_eq!(given, k + 1);
        assert_eq!(done, &data[..k * 256]);
        let words = end.unwrap_err().message();
        assert!(words.starts_with("tmux send-keys: tmux [\"send-keys\", \"-t\", \"disbot-a\""));
        assert!(words.ends_with("failed (exit status: 1): no pane"));
    }
    let (done, given, end) = type_until(s.send_input(&data), 3);
    assert_eq!((done, given), (data, 3));
    assert!(end.is_ok());
    let (done, given, end) = type_until(s.send_input(&[]), 0);
    assert_eq!((done.len(), given), (0, 0));
    assert!(end.is_ok());
}

#[test]
fn a_typing_that_is_over_waits_for_nothing() {
    let t = held("a", "/tmp", "sh", 1).send_input(&[]);
    match t.step(&failed("no pane")) {
        TypingProgress::Next(n) => assert!(n.action().is_none()),
        TypingProgress::Failed(e) => panic!("{:?}", e),
    }
}

#[test]
fn screens_are_captured() {
    let s = held("a", "/tmp", "sh", 1);
    assert_eq!(
        s.capture_tail(25),
        vec!["capture-pane", "-p", "-J", "-t", "disbot-a", "-S", "-25"]
    );
    assert_eq!(captured(&ran("$ ls\n")).unwrap(), "$ ls\n");
    assert_eq!(
        captured(&failed(" can't find pane \n")).unwrap_err().message(),
        "capture-pane failed: can't find pane"
    );
    assert_eq!(
        captured(&Err("gone".to_string())).unwrap_err().message(),
        "spawn tmux capture-pane: gone"
    );
}

#[test]
fn only_a_new_size_needs_a_command() {
    let mut s = held("a", "/tmp", "sh", 1);
    assert_eq!(s.resize(120, 40), None);
    assert_eq!(
        s.resize(80, 24),
        Some(
            vec!["resize-window", "-t", "disbot-a", "-x", "80", "-y", "24"]
                .iter()
                .map(|w| w.to_string())
                .collect()
        )
    );
    assert_eq!(s.resize(80, 24), None);
}

#[test]
fn a_session_is_ended_with_its_socket() {
    let e = held("a", "/tmp", "sh", 1).kill();
    assert_eq!(e.args, vec!["kill-session", "-t", "disbot-a"]);
    assert_eq!(e.socket, "/tmp/disbot-a.sock");
}

#[test]
fn output_comes_in_pieces_until_it_ends() {
    let buf = [1u8, 2, 3, 4];
    assert_eq!(&read_piece(&buf, 3).unwrap()[..], &[1, 2, 3]);
    assert!(matches!(read_piece(&buf, 0), Err(Error::PipeClosed)));
}

#[test]
fn the_pieces_are_what_was_delivered() {
    let delivered: Vec<u8> = (0..40_000u32).map(|i| (i % 253) as u8).collect();
    let mut buf = vec![0u8; READ_CHUNK];
    let mut passed: Vec<u8> = Vec::new();
    let mut at = 0;
    loop {
        let n = READ_CHUNK.min(delivered.len() - at);
        buf[..n].copy_from_slice(&delivered[at..at + n]);
        at += n;
        match read_piece(&buf, n) {
            Ok(piece) => {
                assert!(!piece.is_empty() && piece.len() <= READ_CHUNK);
                passed.extend_from_slice(&piece);
            }
            Err(e) => {
                assert!(matches!(e, Error::PipeClosed));
                break;
            }
        }
    }
    assert_eq!(passed, delivered);
}

#[test]
fn the_clock_is_past_the_year_2020() {
    assert!(disbot::clock::now_secs() > 1_577_836_800);
    assert_eq!(disbot::clock::seconds_or_zero(Some(5)), 5);
    assert_eq!(disbot::clock::seconds_or_zero(None), 0);
}

fn registry() -> Registry {
    Registry::new("/x/sessions.json".to_string(), "bash".to_string())
}

#[test]
fn sessions_are_listed_by_age() {
    let mut r = registry();
    r.created(held("young", "/tmp", "sh", 30));
    r.created(held("old", "/tmp", "sh", 10));
    let saving = r.created(held("middle", "/tmp", "sh", 20));
    let ids: Vec<String> = r.list().iter().map(|m| m.id.clone()).collect();
    assert_eq!(ids, vec!["old", "middle", "young"]);
    assert_eq!(saving.path, "/x/sessions.json");
    let ids: Vec<String> = saving.metas.iter().map(|m| m.id.clone()).collect();
    assert_eq!(ids, vec!["old", "middle", "young"]);
    assert_eq!(saving.metas[0].created_at, 10);
    assert_eq!(r.default_cmd(), "bash");
}

#[test]
fn of_the_same_age_the_first_stays_first() {
    let mut r = registry();
    for id in ["c", "a", "b"] {
        r.created(held(id, "/tmp", "sh", 5));
    }
    let ids: Vec<String> = r.list().iter().map(|m| m.id.clone()).collect();
    assert_eq!(ids, vec!["c", "a", "b"]);
}

#[test]
fn creation_is_refused_where_it_has_to_be() {
    let mut r = registry();
    r.created(held("a", "/tmp", "sh", 1));
    let create = |id: &str| {
        r.create(id.to_string(), "/tmp".to_string(), "sh".to_string(), 120, 40)
    };
    assert_eq!(create("a").unwrap_err().message(), "session 'a' already exists");
    assert!(matches!(create(""), Err(Error::IdLength)));
    assert!(matches!(create("a/b"), Err(Error::IdCharacters)));
    assert_eq!(create("b").unwrap().tmux_name, "disbot-b");
}

#[test]
fn deletion_undoes_creation() {
    let mut r = registry();
    r.created(held("a", "/tmp", "sh", 1));
    r.created(held("b", "/tmp", "sh", 2));
    assert!(r.get("b").is_some());
    let d = r.delete("b").unwrap();
    assert_eq!(d.ending.args, vec!["kill-session", "-t", "disbot-b"]);
    assert_eq!(d.saving.metas.len(), 1);
    assert!(r.get("b").is_none());
    assert_eq!(r.get("a").unwrap().id, "a");
    assert!(matches!(r.delete("b"), Err(Error::NotFound)));
    assert_eq!(r.list().len(), 1);
}

#[test]
fn a_session_with_a_known_id_takes_the_place_of_the_other() {
    let mut r = registry();
    r.created(held("a", "/tmp", "sh", 1));
    r.created(held("a", "/srv", "sh", 2));
    assert_eq!(r.list().len(), 1);
    assert_eq!(r.get("a").unwrap().cwd, "/srv");
}

fn names(list: &[&str]) -> Vec<String> {
    list.iter().map(|n| n.to_string()).collect()
}

/// Runs to the end; the sessions in `broken` cannot be opened.
fn run_to_end(r: &mut Registry, mut sync: Syncing, broken: &[&str]) -> Syncing {
    loop {
        let reply = match sync.action(r) {
            SyncAction::Done => return sync,
            SyncAction::GoOn => SyncReply::GoneOn,
            SyncAction::AskPath(a) => {
                assert_eq!(a[4], "#{pane_current_path}");
                if a[3] == "disbot-lost" {
                    SyncReply::Path(failed(""))
                } else {
                    SyncReply::Path(ran("/pane\n"))
                }
            }
            SyncAction::Open(o) => {
                if broken.contains(&o.id.as_str()) {
                    SyncReply::Failed(Error::NoDirectory(o.cwd))
                } else {
                    SyncReply::Opened(finish(o, 9))
                }
            }
        };
        sync.step(r, reply);
    }
}

#[test]
fn a_registry_is_loaded_from_what_was_written_down_and_from_tmux() {
    let meta = |id: &str| SessionMeta {
        id: id.to_string(),
        cwd: "/stored".to_string(),
        cmd: "vi".to_string(),
        created_at: 3,
    };
    let (mut r, sync) = Registry::load_or_init(
        "/m.json".to_string(),
        "bash".to_string(),
        Some(vec![meta("a"), meta("dead"), meta("broken")]),
        Ok(names(&["a", "new", "lost", "broken", "not/valid"])),
        Some("/home/u".to_string()),
    );
    let sync = run_to_end(&mut r, sync, &["broken"]);
    let mut ids: Vec<String> = r.list().iter().map(|m| m.id.clone()).collect();
    ids.sort();
    assert_eq!(ids, vec!["a", "lost", "new"]);
    assert_eq!(r.get("a").unwrap().cwd, "/stored");
    assert_eq!(r.get("a").unwrap().cmd, "vi");
    assert_eq!(r.get("a").unwrap().created_at, 9);
    assert_eq!(r.get("new").unwrap().cwd, "/pane");
    assert_eq!(r.get("new").unwrap().cmd, "bash");
    assert_eq!(r.get("lost").unwrap().cwd, "/home/u");
    assert_eq!(sync.adopted, 2);
    assert_eq!(sync.saving(&r).unwrap().path, "/m.json");
}

#[test]
fn sessions_live_on_when_the_registry_is_loaded_anew() {
    let mut r = registry();
    r.created(held("a", "/one", "vi", 4));
    let saving = r.created(held("b", "/two", "sh", 2));
    let (mut again, sync) = Registry::load_or_init(
        saving.path,
        "bash".to_string(),
        Some(saving.metas),
        Ok(names(&["b", "a"])),
        None,
    );
    let sync = run_to_end(&mut again, sync, &[]);
    assert_eq!(sync.adopted, 0);
    for id in ["a", "b"] {
        assert_eq!(again.get(id).unwrap().cwd, r.get(id).unwrap().cwd);
        assert_eq!(again.get(id).unwrap().cmd, r.get(id).unwrap().cmd);
    }
}

#[test]
fn loading_nothing_still_writes_it_down() {
    let (mut r, sync) = Registry::load_or_init(
        "/m.json".to_string(),
        "bash".to_string(),
        None,
        Err(Error::NotFound),
        None,
    );
    let sync = run_to_end(&mut r, sync, &[]);
    assert_eq!(r.list().len(), 0);
    assert_eq!(sync.saving(&r).unwrap().metas.len(), 0);
}

#[test]
fn a_refresh_drops_the_dead_and_adopts_the_new() {
    let mut r = registry();
    r.created(held("dead", "/tmp", "sh", 1));
    r.created(held("kept", "/kept", "vi", 2));
    let sync = r.refresh_from_tmux(Ok(names(&["new", "kept"])), None);
    let sync = run_to_end(&mut r, sync, &[]);
    assert_eq!(sync.changes(), 2);
    assert!(r.get("dead").is_none());
    assert_eq!(r.get("kept").unwrap().cwd, "/kept");
    assert_eq!(r.get("new").unwrap().cmd, "bash");
    assert!(sync.saving(&r).is_some());
}

#[test]
fn a_refresh_of_what_is_in_line_changes_nothing() {
    let mut r = registry();
    r.created(held("a", "/tmp", "sh", 1));
    let sync = r.refresh_from_tmux(Ok(names(&["a"])), None);
    let sync = run_to_end(&mut r, sync, &[]);
    assert_eq!(sync.changes(), 0);
    assert!(sync.saving(&r).is_none());
    assert_eq!(r.list().len(), 1);
}

#[test]
fn a_refresh_without_tmux_drops_everything() {
    let mut r = registry();
    r.created(held("a", "/tmp", "sh", 1));
    let sync = r.refresh_from_tmux(Err(Error::NotFound), None);
    let sync = run_to_end(&mut r, sync, &[]);
    assert_eq!(sync.changes(), 1);
    assert_eq!(r.list().len(), 0);
}
