use zhtta::peer::PeerAddr;
use zhtta::server::{bad, pending_file_of, Action, Event, WebServer, HTTP_OK};

fn server() -> WebServer<&'static str> {
    WebServer::new(b"127.0.0.1", 4414, b"alice,secret\n", b"cat,true\ndog,false\n")
}

fn connection(request: &[u8], port: u16, stream: &'static str) -> Event<&'static str> {
    Event::Connection {
        request: request.to_vec(),
        peer: Some(PeerAddr::V4 { octets: [10, 0, 0, 1], port }),
        stream,
    }
}

fn ok(body: &[u8]) -> Vec<u8> {
    let mut r = HTTP_OK.as_bytes().to_vec();
    r.extend_from_slice(body);
    r
}

#[test]
fn login_step_replies() {
    let mut s = server();
    match s.run(connection(b"GET /login?username=alice&password=secret HTTP/1.1", 1, "s1")) {
        Action::Reply { stream, response } => {
            assert_eq!(stream, "s1");
            assert_eq!(response, ok(b""));
        }
        _ => panic!("expected a reply"),
    }
}

#[test]
fn request_without_path_closes() {
    let mut s = server();
    assert!(matches!(s.run(connection(b"garbage", 1, "s1")), Action::Close { stream: "s1" }));
}

#[test]
fn retrieve_step_names_pending_file() {
    let mut s = server();
    match s.run(connection(b"GET /retrieve?username=alice HTTP/1.1", 1, "s1")) {
        Action::SendPending { stream, file } => {
            assert_eq!(stream, "s1");
            assert_eq!(file, pending_file_of(b"alice"));
        }
        _ => panic!("expected pending"),
    }
}

#[test]
fn new_round_step_asks_for_a_word() {
    let mut s = server();
    assert!(matches!(s.run(connection(b"GET /new_round HTTP/1.1", 1, "s1")), Action::SendNewWord { stream: "s1" }));
}

#[test]
fn ascii_art_steps() {
    let mut s = server();
    assert!(matches!(s.run(connection(b"GET /get_ascii_art?art=cat HTTP/1.1", 1, "s1")), Action::SendAsciiArt { .. }));
    match s.run(connection(b"GET /get_ascii_art?art=dog HTTP/1.1", 1, "s2")) {
        Action::Reply { stream, response } => {
            assert_eq!(stream, "s2");
            assert_eq!(response, bad());
        }
        _ => panic!("expected a refusal"),
    }
}

#[test]
fn check_user_step() {
    let mut s = server();
    match s.run(connection(b"GET /check_user?username=nobody HTTP/1.1", 1, "s1")) {
        Action::Reply { response, .. } => assert_eq!(response, bad()),
        _ => panic!("expected a reply"),
    }
}

#[test]
fn upload_step_stores_and_succeeds() {
    let mut s = server();
    match s.run(connection(b"GET /upload_question?recipient=bob&sender=alice&ascii_option=True&word=cat HTTP/1.1", 1, "s1")) {
        Action::StorePending { stream, file, record, response } => {
            assert_eq!(stream, "s1");
            assert_eq!(file, pending_file_of(b"bob"));
            assert_eq!(record, b"sender: alice\nkey: cat\nASCII\n".to_vec());
            assert_eq!(response, ok(b""));
        }
        _ => panic!("expected a store"),
    }
}

#[test]
fn static_requests_are_served_in_order() {
    let mut s = server();
    assert!(matches!(s.run(connection(b"GET /a.html HTTP/1.1", 1, "s1")), Action::Queued { displaced: None }));
    assert!(matches!(s.run(connection(b"GET /b.html HTTP/1.1", 2, "s2")), Action::Queued { displaced: None }));
    match s.run(Event::StaticReady) {
        Action::ServeStatic { parked, path } => {
            assert_eq!(parked, Some("s1"));
            assert_eq!(path, b"./a.html".to_vec());
        }
        _ => panic!("expected a static file"),
    }
    match s.run(Event::StaticReady) {
        Action::ServeStatic { parked, path } => {
            assert_eq!(parked, Some("s2"));
            assert_eq!(path, b"./b.html".to_vec());
        }
        _ => panic!("expected a static file"),
    }
    assert!(matches!(s.run(Event::StaticReady), Action::Idle));
}

#[test]
fn same_peer_twice_loses_the_first_stream() {
    let mut s = server();
    assert!(matches!(s.run(connection(b"GET /a.html HTTP/1.1", 7, "s1")), Action::Queued { displaced: None }));
    assert!(matches!(s.run(connection(b"GET /b.html HTTP/1.1", 7, "s2")), Action::Queued { displaced: Some("s1") }));
    assert!(matches!(s.run(Event::StaticReady), Action::ServeStatic { parked: Some("s2"), .. }));
    assert!(matches!(s.run(Event::StaticReady), Action::ServeStatic { parked: None, .. }));
}

#[test]
fn failing_events_are_recognised() {
    let s = server();
    assert!(zhtta::routing::request_fails(b"GET /login?username HTTP/1.1"));
    assert!(!s.question_map.contains_key(b"horse"));
}

#[test]
fn uploaded_question_reaches_the_recipient() {
    let mut s = server();
    let stored = match s.run(connection(b"GET /upload_question?recipient=alice&sender=bob&ascii_option=False&content=xyz&word=cat HTTP/1.1", 1, "s1")) {
        Action::StorePending { file, record, .. } => (file, record),
        _ => panic!("expected a store"),
    };
    let read_from = match s.run(connection(b"GET /retrieve?username=alice HTTP/1.1", 2, "s2")) {
        Action::SendPending { file, .. } => file,
        _ => panic!("expected pending"),
    };
    assert_eq!(stored.0, read_from);
    let mut held = b"sender: carol\nkey: dog\nASCII\n".to_vec();
    held.extend_from_slice(&stored.1);
    let reply = WebServer::<&str>::retrieve_question(Some(&held));
    assert!(reply.ends_with(b"sender: bob\nkey: cat\nxyz\n"));
    assert_eq!(reply, ok(&held));
}
