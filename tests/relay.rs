use chat_relay::command::{parse_command, parse_frame, split_once, Command};
use chat_relay::table::record_id_parts;
use chat_relay::connection::{Connection, SendError};
use chat_relay::cryption::get_id;
use chat_relay::server::{ChatServer, ClientMessage, Connect, Delivery, Disconnect};
use chat_relay::session::{Action, Frame, Phase, SocketSession};

fn dm(sender: &str, recipient: &str, text: &str) -> ClientMessage {
    ClientMessage {
        text: text.to_string(),
        resiver: recipient.to_string(),
        sender: sender.to_string(),
    }
}

fn leave(name: &str) -> Disconnect {
    Disconnect { username: name.to_string() }
}

fn direct(c: Option<Command>) -> Option<(String, String)> {
    match c {
        Some(Command::DirectMessage { recipient, text }) => Some((recipient, text)),
        _ => None,
    }
}

#[test]
fn parses_list_token() {
    assert!(matches!(parse_frame("LU"), Some(Command::ListUsers)));
}

#[test]
fn parses_direct_message() {
    assert_eq!(
        direct(parse_frame("bob/hi there")),
        Some(("bob".to_string(), "hi there".to_string()))
    );
}

#[test]
fn only_first_slash_splits() {
    assert_eq!(
        direct(parse_frame("bob/a/b")),
        Some(("bob".to_string(), "a/b".to_string()))
    );
}

#[test]
fn bare_token_is_ignored() {
    assert!(parse_frame("bob").is_none());
}

#[test]
fn empty_frame_is_ignored() {
    assert!(parse_frame("").is_none());
}

#[test]
fn list_token_before_slash_lists() {
    assert!(matches!(parse_frame("LU/anything"), Some(Command::ListUsers)));
}

#[test]
fn empty_recipient_and_text_are_kept() {
    assert_eq!(
        direct(parse_frame("/")),
        Some((String::new(), String::new()))
    );
    assert_eq!(
        direct(parse_frame("bob/")),
        Some(("bob".to_string(), String::new()))
    );
}

#[test]
fn frame_is_trimmed_before_parsing() {
    assert!(matches!(parse_frame("  LU \n"), Some(Command::ListUsers)));
    assert!(parse_command("  LU \n").is_none());
    assert_eq!(
        direct(parse_frame(" bob/hi there\t")),
        Some(("bob".to_string(), "hi there".to_string()))
    );
}

#[test]
fn non_ascii_text_is_kept() {
    assert_eq!(
        direct(parse_frame("zoë/héllo/wörld")),
        Some(("zoë".to_string(), "héllo/wörld".to_string()))
    );
}

#[test]
fn route_reaches_listed_recipient() {
    let mut server: ChatServer<u32> = ChatServer::new();
    server.register(Connect { username: "bob".to_string(), addr: 7 });
    match server.route(dm("alice", "bob", "hello")) {
        Delivery::Deliver { to, frame } => {
            assert_eq!(*to, 7);
            assert_eq!(frame.0, "hello");
        }
        Delivery::Miss { .. } => panic!("bob is listed"),
    }
}

#[test]
fn route_misses_unlisted_recipient() {
    let mut server: ChatServer<u32> = ChatServer::new();
    server.register(Connect { username: "bob".to_string(), addr: 7 });
    match server.route(dm("alice", "carol", "hello")) {
        Delivery::Miss { recipient } => assert_eq!(recipient, "carol"),
        Delivery::Deliver { .. } => panic!("carol is not listed"),
    }
}

#[test]
fn register_returns_the_name() {
    let mut server: ChatServer<u32> = ChatServer::new();
    assert_eq!(server.register(Connect { username: "alice".to_string(), addr: 1 }), "alice");
}

#[test]
fn directory_follows_last_change() {
    let mut server: ChatServer<u32> = ChatServer::new();
    server.register(Connect { username: "alice".to_string(), addr: 1 });
    server.register(Connect { username: "bob".to_string(), addr: 2 });
    server.deregister(&leave("alice"));
    server.register(Connect { username: "carol".to_string(), addr: 3 });
    server.deregister(&leave("dave"));
    server.register(Connect { username: "alice".to_string(), addr: 4 });
    server.deregister(&leave("bob"));
    let mut names = server.list();
    names.sort();
    assert_eq!(names, vec!["alice".to_string(), "carol".to_string()]);
    assert!(server.contains("alice"));
    assert!(!server.contains("bob"));
}

#[test]
fn deregister_twice_is_deregister_once() {
    let mut once: ChatServer<u32> = ChatServer::new();
    let mut twice: ChatServer<u32> = ChatServer::new();
    for s in [&mut once, &mut twice] {
        s.register(Connect { username: "alice".to_string(), addr: 1 });
        s.register(Connect { username: "bob".to_string(), addr: 2 });
    }
    once.deregister(&leave("alice"));
    twice.deregister(&leave("alice"));
    twice.deregister(&leave("alice"));
    let mut a = once.list();
    let mut b = twice.list();
    a.sort();
    b.sort();
    assert_eq!(a, b);
    assert_eq!(a, vec!["bob".to_string()]);
}

#[test]
fn messages_arrive_in_order() {
    let mut server: ChatServer<Connection> = ChatServer::new();
    server.register(Connect { username: "r".to_string(), addr: Connection::new() });
    assert!(server.deliver(dm("s", "r", "a")));
    assert!(server.deliver(dm("s", "r", "b")));
    match server.route(dm("s", "r", "")) {
        Delivery::Deliver { to, .. } => {
            assert_eq!(to.frames(), vec!["a".to_string(), "b".to_string()])
        }
        Delivery::Miss { .. } => panic!("r is listed"),
    }
}

#[test]
fn replacement_sends_to_newest_handle() {
    let mut server: ChatServer<u32> = ChatServer::new();
    server.register(Connect { username: "alice".to_string(), addr: 1 });
    server.register(Connect { username: "alice".to_string(), addr: 2 });
    assert_eq!(server.list(), vec!["alice".to_string()]);
    match server.route(dm("bob", "alice", "hi")) {
        Delivery::Deliver { to, frame } => {
            assert_eq!(*to, 2);
            assert_eq!(frame.0, "hi");
        }
        Delivery::Miss { .. } => panic!("alice is listed"),
    }
}

#[test]
fn replaced_connection_gets_nothing_and_stays_open() {
    let mut server: ChatServer<Connection> = ChatServer::new();
    let first = Connection::new();
    server.register(Connect { username: "alice".to_string(), addr: first });
    // the first handle is given up by the directory, not closed by it
    server.register(Connect { username: "alice".to_string(), addr: Connection::new() });
    assert!(server.deliver(dm("bob", "alice", "x")));
    match server.route(dm("bob", "alice", "")) {
        Delivery::Deliver { to, .. } => assert_eq!(to.frames(), vec!["x".to_string()]),
        Delivery::Miss { .. } => panic!("alice is listed"),
    }
}

fn join(server: &mut ChatServer<Connection>, session: &mut SocketSession) {
    match session.started() {
        Action::Join(name) => {
            let listed = server.register(Connect { username: name, addr: Connection::new() });
            assert!(matches!(session.registered(Some(listed)), Action::Nothing));
        }
        _ => panic!("a new session asks to join"),
    }
}

fn carry_out(server: &mut ChatServer<Connection>, action: Action) -> Option<bool> {
    match action {
        Action::Send(m) => Some(server.deliver(m)),
        Action::Leave(d) => {
            server.deregister(&d);
            None
        }
        _ => None,
    }
}

#[test]
fn end_to_end_exchange() {
    let mut server: ChatServer<Connection> = ChatServer::new();
    let mut a = SocketSession::new("alice".to_string());
    let mut b = SocketSession::new("bob".to_string());
    join(&mut server, &mut a);
    join(&mut server, &mut b);
    assert!(a.phase == Phase::Active && b.phase == Phase::Active);

    let sent = a.handle(Frame::Text("bob/hello".to_string()));
    assert_eq!(carry_out(&mut server, sent), Some(true));
    match server.route(dm("alice", "bob", "")) {
        Delivery::Deliver { to, .. } => assert_eq!(to.frames(), vec!["hello".to_string()]),
        Delivery::Miss { .. } => panic!("bob is listed"),
    }

    let left = a.handle(Frame::Close);
    assert!(matches!(&left, Action::Leave(Disconnect { username }) if username == "alice"));
    assert_eq!(carry_out(&mut server, left), None);
    assert_eq!(a.phase, Phase::Closed);

    let ping = b.handle(Frame::Text("alice/ping".to_string()));
    assert_eq!(carry_out(&mut server, ping), Some(false));
    assert_eq!(server.list(), vec!["bob".to_string()]);
}

#[test]
fn session_text_commands() {
    let mut s = SocketSession::new("alice".to_string());
    s.registered(Some("alice".to_string()));
    assert!(matches!(s.handle(Frame::Text("LU".to_string())), Action::List(_)));
    match s.handle(Frame::Text("bob/hi".to_string())) {
        Action::Send(m) => {
            assert_eq!(m.sender, "alice");
            assert_eq!(m.resiver, "bob");
            assert_eq!(m.text, "hi");
        }
        _ => panic!("a direct message"),
    }
    assert!(matches!(s.handle(Frame::Text("bob".to_string())), Action::Nothing));
    assert!(matches!(s.handle(Frame::Binary), Action::Nothing));
    assert!(matches!(s.handle(Frame::Ping), Action::Nothing));
    assert_eq!(s.phase, Phase::Active);
}

#[test]
fn session_leaves_once() {
    for end in [Frame::Close, Frame::Continuation, Frame::Error] {
        let mut s = SocketSession::new("alice".to_string());
        s.registered(Some("alice".to_string()));
        assert!(matches!(s.handle(end), Action::Leave(_)));
        assert_eq!(s.phase, Phase::Closed);
        assert!(matches!(s.handle(Frame::Close), Action::Nothing));
        assert!(matches!(s.handle(Frame::Text("bob/hi".to_string())), Action::Nothing));
    }
}

#[test]
fn session_before_join_ignores_frames() {
    let mut s = SocketSession::new("alice".to_string());
    assert_eq!(s.phase, Phase::Connecting);
    assert!(matches!(s.handle(Frame::Text("LU".to_string())), Action::Nothing));
    assert!(matches!(s.started(), Action::Join(ref n) if n == "alice"));
}

#[test]
fn failed_join_stops_without_leaving() {
    let mut s = SocketSession::new("alice".to_string());
    assert!(matches!(s.registered(None), Action::Stop));
    assert_eq!(s.phase, Phase::Closed);
    assert!(matches!(s.started(), Action::Nothing));
    assert!(matches!(s.registered(Some("alice".to_string())), Action::Nothing));
}

#[test]
fn closed_connection_refuses_frames() {
    let mut c = Connection::new();
    assert_eq!(c.send("a".to_string()), Ok(()));
    c.close();
    c.close();
    assert!(!c.is_open());
    assert_eq!(c.send("b".to_string()), Err(SendError::Closed));
    assert_eq!(c.frames(), vec!["a".to_string()]);
}

#[test]
fn delivery_to_closed_connection_is_lost() {
    let mut server: ChatServer<Connection> = ChatServer::new();
    let mut c = Connection::new();
    c.close();
    server.register(Connect { username: "r".to_string(), addr: c });
    assert!(!server.deliver(dm("s", "r", "a")));
    assert!(!server.deliver(dm("s", "nobody", "a")));
}

#[test]
fn ids_have_requested_length_and_alphabet() {
    let id = get_id(64);
    assert_eq!(id.len(), 64);
    assert!(id.iter().all(|c| ('0'..='}').contains(c)));
    assert!(get_id(0).is_empty());
}

#[test]
fn record_id_splits_at_first_colon() {
    assert_eq!(
        record_id_parts("user:abc:def"),
        Some(("user".to_string(), "abc:def".to_string()))
    );
    assert_eq!(record_id_parts("user"), None);
}

#[test]
fn split_once_finds_first_separator() {
    assert_eq!(split_once("a/b/c", '/'), Some(("a", "b/c")));
    assert_eq!(split_once("abc", '/'), None);
    assert_eq!(split_once("/", '/'), Some(("", "")));
}
