use zhtta::server::{bad, pending_file_of, WebServer, ASCII_ART_PATH, HTTP_BAD, HTTP_OK, PENDING_PATH};

const USERS: &[u8] = b"alice,secret\nbob,pw\nbroken line\nalice,newer\ncarol,x,y\n";
const QUESTIONS: &[u8] = b"cat,true\ndog,false\nhouse,maybe\nsun,true\nno fields\n";

fn server() -> WebServer<u32> {
    WebServer::new(b"127.0.0.1", 4414, USERS, QUESTIONS)
}

fn ok(body: &[u8]) -> Vec<u8> {
    let mut r = HTTP_OK.as_bytes().to_vec();
    r.extend_from_slice(body);
    r
}

#[test]
fn new_keeps_address_and_port() {
    let s = server();
    assert_eq!(s.ip, b"127.0.0.1".to_vec());
    assert_eq!(s.port, 4414);
}

#[test]
fn later_account_line_replaces_earlier() {
    let s = server();
    assert_eq!(s.login_user(b"alice", b"newer"), ok(b""));
    assert_eq!(s.login_user(b"alice", b"secret"), HTTP_BAD.as_bytes().to_vec());
}

#[test]
fn login_refuses_wrong_password_and_unknown_user() {
    let s = server();
    assert_eq!(s.login_user(b"bob", b"pw"), ok(b""));
    assert_eq!(s.login_user(b"bob", b"PW"), bad());
    assert_eq!(s.login_user(b"dave", b"pw"), bad());
    assert_eq!(s.login_user(b"", b""), bad());
}

#[test]
fn lines_without_two_fields_define_no_account() {
    let s = server();
    assert_eq!(s.check_user_presence(b"carol"), bad());
    assert_eq!(s.check_user_presence(b"broken line"), bad());
    assert_eq!(s.check_user_presence(b"bob"), ok(b""));
}

#[test]
fn words_are_first_fields_of_two_field_lines() {
    let s = server();
    assert_eq!(s.questions.len(), 4);
    assert_eq!(s.generate_new_word(0), ok(b"cat"));
    assert_eq!(s.generate_new_word(2), ok(b"house"));
    assert_eq!(s.generate_new_word(3), ok(b"sun"));
}

#[test]
fn ascii_art_only_for_words_flagged_true() {
    let s = server();
    let mut file = ASCII_ART_PATH.as_bytes().to_vec();
    file.extend_from_slice(b"/cat.txt");
    assert_eq!(s.generate_ascii_art(b"cat"), Some(file));
    assert_eq!(s.generate_ascii_art(b"dog"), None);
    assert!(!s.question_map.contains_key(b"house"));
}

#[test]
fn retrieve_replies_with_file_or_refuses() {
    assert_eq!(WebServer::<u32>::retrieve_question(Some(b"sender: a\n")), ok(b"sender: a\n"));
    assert_eq!(WebServer::<u32>::retrieve_question(Some(b"")), ok(b""));
    assert_eq!(WebServer::<u32>::retrieve_question(None), HTTP_BAD.as_bytes().to_vec());
}

#[test]
fn pending_file_is_per_user() {
    let mut expected = PENDING_PATH.as_bytes().to_vec();
    expected.extend_from_slice(b"/bob.txt");
    assert_eq!(pending_file_of(b"bob"), expected);
    assert_ne!(pending_file_of(b"bob"), pending_file_of(b"bo"));
}

#[test]
fn upload_record_with_drawing() {
    let (file, record) = WebServer::<u32>::upload_question(b"bob", b"alice", b"cat", b"False", b"drawing");
    assert_eq!(file, pending_file_of(b"bob"));
    assert_eq!(record, b"sender: alice\nkey: cat\ndrawing\n".to_vec());
}

#[test]
fn upload_record_with_ascii_art() {
    let (_, record) = WebServer::<u32>::upload_question(b"bob", b"alice", b"cat", b"True", b"ignored");
    assert_eq!(record, b"sender: alice\nkey: cat\nASCII\n".to_vec());
}

#[test]
fn upload_record_with_other_option() {
    let (_, record) = WebServer::<u32>::upload_question(b"bob", b"alice", b"cat", b"true", b"ignored");
    assert_eq!(record, b"sender: alice\nkey: cat\n".to_vec());
}

#[test]
fn static_file_reply() {
    assert_eq!(WebServer::<u32>::respond_with_static_file(b"<html></html>"), ok(b"<html></html>"));
    assert_eq!(
        HTTP_OK.as_bytes(),
        b"HTTP/1.1 200 OK\r\nContent-Type: text/html; charset=UTF-8\r\n\r\n"
    );
    assert_eq!(HTTP_BAD.as_bytes(), b"HTTP/1.1 404 Not Found\r\n\r\n");
}

#[test]
fn empty_files_give_empty_tables() {
    let s: WebServer<u32> = WebServer::new(b"0.0.0.0", 1, b"", b"");
    assert_eq!(s.questions.len(), 0);
    assert_eq!(s.check_user_presence(b""), bad());
}
