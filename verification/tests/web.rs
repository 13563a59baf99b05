use axum::http::HeaderValue;
use disbot::api::{
    auth_middleware, authorized, create_session, delete_session, list_sessions, scrollback,
    scrollback_captured, scrollback_lines, session_created, session_deleted, Answer, Body,
    CreateReq,
};
use disbot::config::{detect_shell, load, shell_candidates, Environment};
use disbot::error::Error;
use disbot::forward::Received;
use disbot::home::{
    default_cwd, disbot_state_dir, expand_tilde, load_owner_from_disk, meta_path, owner_path,
    save_owner_to_disk,
};
use disbot::registry::Registry;
use disbot::session::{Inner, Session};
use disbot::ws::{
    handle, handle_message, output_goes_on, ws_handler, ClientAction, ClientMsg, ConnectionAction,
    ConnectionReply, WsParams,
};

fn session(id: &str) -> Session {
    Session {
        id: id.to_string(),
        cwd: "/srv".to_string(),
        cmd: "sh".to_string(),
        created_at: 5,
        tmux_name: format!("disbot-{}", id),
        inner: Inner { cols: 120, rows: 40 },
    }
}

fn registry(ids: &[&str]) -> Registry {
    let mut r = Registry::new("/m.json".to_string(), "bash".to_string());
    for id in ids {
        r.created(session(id));
    }
    r
}

fn some(s: &str) -> Option<String> {
    Some(s.to_string())
}

fn said(a: Answer) -> (u16, String) {
    match a.body {
        Body::Text(t) => (a.status, t),
        other => panic!("{:?}", other),
    }
}

#[test]
fn the_right_token_is_asked_for() {
    assert!(authorized("k", &some("k"), &None));
    assert!(!authorized("k", &some("x"), &some("Bearer k")));
    assert!(authorized("k", &None, &some("Bearer k")));
    assert!(!authorized("k", &None, &some("bearer k")));
    assert!(!authorized("k", &None, &some("k")));
    assert!(!authorized("k", &None, &some("Bearer k ")));
    assert!(!authorized("k", &None, &None));
    assert!(authorized("", &None, &some("Bearer ")));
}

#[test]
fn requests_without_the_token_are_answered() {
    let good = HeaderValue::from_static("Bearer k");
    let bad = HeaderValue::from_static("Basic k");
    let dark = HeaderValue::from_bytes(b"Bearer k\xff").unwrap();
    assert!(auth_middleware("k", &None, Some(&good)).is_none());
    assert!(auth_middleware("k", &some("k"), Some(&bad)).is_none());
    assert!(auth_middleware("k", &some("k"), None).is_none());
    for header in [Some(&bad), Some(&dark), None] {
        let a = auth_middleware("k", &None, header).unwrap();
        assert_eq!(said(a), (401, "bad token".to_string()));
    }
    assert!(auth_middleware("k", &some(""), Some(&good)).is_some());
    let tab = HeaderValue::from_bytes(b"Bearer a\tb").unwrap();
    assert!(auth_middleware("a\tb", &None, Some(&tab)).is_none());
}

#[test]
fn the_sessions_are_listed() {
    let a = list_sessions(&registry(&["a", "b"]));
    assert_eq!(a.status, 200);
    match a.body {
        Body::Sessions(list) => {
            assert_eq!(list.len(), 2);
            assert_eq!(list[0].id, "a");
            assert_eq!(list[1].cwd, "/srv");
        }
        other => panic!("{:?}", other),
    }
}

#[test]
fn a_request_for_a_session_is_filled_in() {
    let r = registry(&["a"]);
    let ask = |id: &str, cwd: Option<String>, cmd: Option<String>| {
        create_session(&r, CreateReq { id: id.to_string(), cwd, cmd }, &some("/home/u"))
    };
    let o = ask("n", some(" "), None).unwrap();
    assert_eq!((o.cwd.as_str(), o.cmd.as_str()), ("/home/u", "bash"));
    let o = ask("n", some("/x "), some("vi")).unwrap();
    assert_eq!((o.cwd.as_str(), o.cmd.as_str()), ("/x ", "vi"));
    assert_eq!((o.cols, o.rows), (120, 40));
    let a = ask("a", None, None).unwrap_err();
    assert_eq!(said(a), (400, "session 'a' already exists".to_string()));
    let a = ask("", None, None).unwrap_err();
    assert_eq!(said(a), (400, "id length must be 1..=64".to_string()));
    let o = create_session(
        &r,
        CreateReq { id: "n".to_string(), cwd: None, cmd: some("\t") },
        &None,
    )
    .unwrap();
    assert_eq!((o.cwd.as_str(), o.cmd.as_str()), ("/", "bash"));
}

#[test]
fn a_session_that_was_created_is_told() {
    let a = session_created(Ok(&session("n")));
    assert_eq!(a.status, 201);
    assert!(matches!(a.body, Body::Session(m) if m.id == "n" && m.created_at == 5));
    assert_eq!(said(session_created(Err("no".to_string()))), (400, "no".to_string()));
}

#[test]
fn a_session_is_deleted() {
    let mut r = registry(&["a", "b"]);
    let d = delete_session(&mut r, "a").unwrap();
    assert_eq!(d.ending.socket, "/tmp/disbot-a.sock");
    assert_eq!(d.saving.metas.len(), 1);
    let a = delete_session(&mut r, "a").unwrap_err();
    assert_eq!(said(a), (400, "session not found".to_string()));
    let a = session_deleted(Ok(()));
    assert_eq!(a.status, 204);
    assert!(matches!(a.body, Body::Empty));
    assert_eq!(said(session_deleted(Err("disk".to_string()))), (400, "disk".to_string()));
}

#[test]
fn lines_are_counted_within_bounds() {
    assert_eq!(scrollback_lines(&None), 2000);
    assert_eq!(scrollback_lines(&some("1")), 1);
    assert_eq!(scrollback_lines(&some("+20000")), 20000);
    for s in ["0", "20001", "-1", "ten", "", " 5", "4294967296"] {
        assert_eq!(scrollback_lines(&some(s)), 2000);
    }
}

#[test]
fn lines_of_a_session_are_asked_for() {
    let r = registry(&["a"]);
    assert_eq!(
        scrollback(&r, "a", &some("50")).unwrap(),
        vec!["capture-pane", "-p", "-J", "-t", "disbot-a", "-S", "-50"]
    );
    let a = scrollback(&r, "b", &None).unwrap_err();
    assert_eq!(said(a), (404, "no session 'b'".to_string()));
    assert_eq!(said(scrollback_captured(Ok("x\n".to_string()))), (200, "x\n".to_string()));
    assert_eq!(
        said(scrollback_captured(Err(Error::Capture("gone".to_string())))),
        (500, "capture-pane failed: gone".to_string())
    );
}

#[test]
fn a_browser_connects() {
    let r = registry(&["a"]);
    let params = |token: &str, id: &str, cols: Option<u16>| WsParams {
        token: token.to_string(),
        id: id.to_string(),
        cols,
        rows: None,
    };
    let size = ws_handler(&r, "k", &params("k", "a", Some(99))).unwrap();
    assert_eq!((size.cols, size.rows), (99, 40));
    let size = ws_handler(&r, "k", &params("k", "a", None)).unwrap();
    assert_eq!((size.cols, size.rows), (120, 40));
    let a = ws_handler(&r, "k", &params("x", "b", None)).unwrap_err();
    assert_eq!(said(a), (401, "bad token".to_string()));
    let a = ws_handler(&r, "k", &params("k", "b", None)).unwrap_err();
    assert_eq!(said(a), (404, "no session 'b'".to_string()));
}

/// Runs a connection to its end: what was done, in order.
fn connect(snapshot: Result<Vec<u8>, String>, can_send: bool) -> Vec<String> {
    let mut done: Vec<String> = Vec::new();
    let mut taken = Some(snapshot);
    let mut c = handle(80, 24);
    loop {
        let reply = match c.action() {
            ConnectionAction::AddViewport { cols, rows } => {
                done.push(format!("add {}x{}", cols, rows));
                ConnectionReply::Added(17)
            }
            ConnectionAction::TakeSnapshot => {
                done.push("snapshot".to_string());
                ConnectionReply::Taken(taken.take().unwrap())
            }
            ConnectionAction::Send(b) => {
                done.push(format!("send {:?}", b));
                ConnectionReply::Sent(can_send)
            }
            ConnectionAction::PassOn => {
                done.push("pass on".to_string());
                ConnectionReply::Ended
            }
            ConnectionAction::RemoveViewport(v) => {
                done.push(format!("remove {}", v));
                ConnectionReply::Removed
            }
            ConnectionAction::Done => return done,
        };
        c = c.step(reply);
    }
}

#[test]
fn a_snapshot_is_sent_first() {
    assert_eq!(
        connect(Ok(vec![1, 2]), true),
        vec!["add 80x24", "snapshot", "send [1, 2]", "pass on", "remove 17"]
    );
}

#[test]
fn a_browser_that_cannot_be_sent_the_snapshot_is_left() {
    assert_eq!(
        connect(Ok(vec![1, 2]), false),
        vec!["add 80x24", "snapshot", "send [1, 2]", "remove 17"]
    );
}

#[test]
fn without_a_snapshot_the_output_is_passed_on_at_once() {
    let expected = vec!["add 80x24", "snapshot", "pass on", "remove 17"];
    assert_eq!(connect(Ok(Vec::new()), true), expected);
    assert_eq!(connect(Err("no pane".to_string()), true), expected);
}

#[test]
fn a_connection_waits_for_its_answer() {
    let c = handle(80, 24).step(ConnectionReply::Removed);
    assert!(matches!(c.action(), ConnectionAction::AddViewport { cols: 80, rows: 24 }));
    let c = c.step(ConnectionReply::Added(3)).step(ConnectionReply::Ended);
    assert!(matches!(c.action(), ConnectionAction::TakeSnapshot));
}

#[test]
fn a_browser_gives_its_viewport_a_size() {
    let s = session("a");
    let a = handle_message(&s, 17, ClientMsg::Resize { c: 81, r: 25 });
    assert!(matches!(a, ClientAction::UpdateViewport { viewport: 17, cols: 81, rows: 25 }));
}

fn typed_by(a: ClientAction) -> Vec<Vec<String>> {
    match a {
        ClientAction::Type(t) => t.commands,
        other => panic!("{:?}", other),
    }
}

#[test]
fn what_a_browser_types_is_typed() {
    let s = session("a");
    assert_eq!(
        typed_by(handle_message(&s, 17, ClientMsg::Input { d: "\u{20ac}\r".to_string() })),
        vec![vec!["send-keys", "-t", "disbot-a", "-H", "e2", "82", "ac", "0d"]]
    );
    let nothing = ClientMsg::Input { d: String::new() };
    assert_eq!(typed_by(handle_message(&s, 17, nothing)).len(), 0);
}

#[test]
fn output_goes_on_until_its_end() {
    assert!(output_goes_on(Received::Piece));
    assert!(output_goes_on(Received::Lagged(9)));
    assert!(!output_goes_on(Received::Closed));
}

fn nothing_set() -> Environment {
    Environment { bind: None, token: None, cmd: None, tg_token: None, tg_owner: None }
}

#[test]
fn the_set_up_follows_from_the_environment() {
    let c = load(nothing_set(), "/bin/zsh".to_string());
    assert_eq!(c.bind, "127.0.0.1:7878");
    assert_eq!(c.token, "letmein");
    assert_eq!(c.claude_cmd, "/bin/zsh");
    assert_eq!(c.tg_token, None);
    assert_eq!(c.tg_owner, None);
    let c = load(
        Environment {
            bind: some("0.0.0.0:1"),
            token: some(""),
            cmd: some("vi"),
            tg_token: some("t"),
            tg_owner: some(" -12\n"),
        },
        "/bin/zsh".to_string(),
    );
    assert_eq!(c.bind, "0.0.0.0:1");
    assert_eq!(c.token, "");
    assert_eq!(c.claude_cmd, "vi");
    assert_eq!(c.tg_token, some("t"));
    assert_eq!(c.tg_owner, Some(-12));
    let c = load(
        Environment { tg_token: some(""), tg_owner: some("me"), ..nothing_set() },
        String::new(),
    );
    assert_eq!(c.tg_token, None);
    assert_eq!(c.tg_owner, None);
}

#[test]
fn the_first_shell_that_is_there_is_taken() {
    let c = shell_candidates(&some("/usr/bin/fish"));
    assert_eq!(c, vec!["/usr/bin/fish", "/bin/zsh", "/bin/bash", "/bin/sh"]);
    assert_eq!(detect_shell(&c, &vec![true, true, true, true]), "/usr/bin/fish");
    assert_eq!(detect_shell(&c, &vec![false, false, true, true]), "/bin/bash");
    assert_eq!(detect_shell(&c, &vec![false, false, false, false]), "/bin/sh");
    assert_eq!(shell_candidates(&some("")), vec!["/bin/zsh", "/bin/bash", "/bin/sh"]);
    assert_eq!(shell_candidates(&None), vec!["/bin/zsh", "/bin/bash", "/bin/sh"]);
}

#[test]
fn paths_lead_from_the_home_directory() {
    let home = some("/home/u");
    assert_eq!(default_cwd(&home), "/home/u");
    assert_eq!(default_cwd(&None), "/");
    assert_eq!(disbot_state_dir(&home), "/home/u/.disbot");
    assert_eq!(disbot_state_dir(&None), "./.disbot");
    assert_eq!(meta_path(&home), "/home/u/.disbot/sessions.json");
    assert_eq!(owner_path(&home), some("/home/u/.disbot-owner"));
    assert_eq!(owner_path(&None), None);
}

#[test]
fn a_tilde_stands_for_the_home_directory() {
    let home = some("/home/u");
    assert_eq!(expand_tilde("~", &home), "/home/u");
    assert_eq!(expand_tilde("~/a/b", &home), "/home/u/a/b");
    assert_eq!(expand_tilde("~/", &home), "/home/u/");
    assert_eq!(expand_tilde("~x", &home), "~x");
    assert_eq!(expand_tilde("/a/~/b", &home), "/a/~/b");
    assert_eq!(expand_tilde("~/a", &None), "~/a");
    assert_eq!(expand_tilde("~", &None), "~");
}

#[test]
fn the_owner_is_read_back() {
    for id in [0i64, 7, -1, i64::MIN, i64::MAX] {
        let file = save_owner_to_disk(id);
        assert_eq!(file, id.to_string());
        assert_eq!(load_owner_from_disk(&Some(file)), Some(id));
    }
    assert_eq!(load_owner_from_disk(&some(" 42\n")), Some(42));
    assert_eq!(load_owner_from_disk(&some("me")), None);
    assert_eq!(load_owner_from_disk(&None), None);
}
