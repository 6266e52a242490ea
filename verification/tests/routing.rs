use zhtta::routing::{path_fails, request_fails, route_path, route_request, Route};

fn route_of(request: &[u8]) -> Option<Route> {
    assert!(!request_fails(request));
    route_request(request)
}

#[test]
fn login_request_carries_name_and_password() {
    match route_of(b"GET /login?username=alice&password=secret HTTP/1.1\r\n") {
        Some(Route::Login { username, password }) => {
            assert_eq!(username, b"alice".to_vec());
            assert_eq!(password, b"secret".to_vec());
        }
        _ => panic!("not a login"),
    }
}

#[test]
fn login_last_occurrence_wins_and_missing_is_empty() {
    match route_of(b"GET /login?username=a&username=b&other HTTP/1.1") {
        Some(Route::Login { username, password }) => {
            assert_eq!(username, b"b".to_vec());
            assert_eq!(password, Vec::<u8>::new());
        }
        _ => panic!("not a login"),
    }
}

#[test]
fn login_value_stops_at_second_equals() {
    match route_of(b"GET /login?password=a=b&username=u HTTP/1.1") {
        Some(Route::Login { username, password }) => {
            assert_eq!(username, b"u".to_vec());
            assert_eq!(password, b"a".to_vec());
        }
        _ => panic!("not a login"),
    }
}

#[test]
fn login_argument_without_value_fails() {
    assert!(request_fails(b"GET /login?username HTTP/1.1"));
    assert!(path_fails(b"./login?password&username=x"));
}

#[test]
fn login_path_too_short_fails() {
    assert!(path_fails(b"./login"));
    assert!(!path_fails(b"./login?"));
}

#[test]
fn retrieve_takes_rest_of_path() {
    match route_of(b"GET /retrieve?username=bob HTTP/1.1") {
        Some(Route::Retrieve { username }) => assert_eq!(username, b"bob".to_vec()),
        _ => panic!("not a retrieval"),
    }
}

#[test]
fn retrieve_shorter_than_argument_offset_fails() {
    assert!(path_fails(b"./retrieve?user"));
    assert!(request_fails(b"GET /retrieve HTTP/1.1"));
}

#[test]
fn cut_inside_a_character_fails() {
    // byte 20 is the second byte of a two-byte character
    let mut path = b"./retrieve?username".to_vec();
    path.extend_from_slice("é".as_bytes());
    assert_eq!(path.len(), 21);
    assert!(path_fails(&path));
    let mut ok = b"./retrieve?username=".to_vec();
    ok.extend_from_slice("é".as_bytes());
    assert!(!path_fails(&ok));
}

#[test]
fn new_round_has_no_arguments() {
    assert!(matches!(route_of(b"GET /new_round HTTP/1.1"), Some(Route::NewRound)));
}

#[test]
fn ascii_art_word_starts_at_fixed_offset() {
    match route_of(b"GET /get_ascii_art?art=house HTTP/1.1") {
        Some(Route::AsciiArt { word }) => assert_eq!(word, b"house".to_vec()),
        _ => panic!("not an ascii art request"),
    }
}

#[test]
fn check_user_takes_rest_of_path() {
    match route_of(b"GET /check_user?username=carol HTTP/1.1") {
        Some(Route::CheckUser { username }) => assert_eq!(username, b"carol".to_vec()),
        _ => panic!("not a check"),
    }
}

#[test]
fn upload_reads_all_five_arguments() {
    let request = b"GET /upload_question?recipient=bob&sender=alice&ascii_option=False&content=abc&word=cat HTTP/1.1";
    match route_of(request) {
        Some(Route::Upload { recipient, sender, ascii_option, content, key_word }) => {
            assert_eq!(recipient, b"bob".to_vec());
            assert_eq!(sender, b"alice".to_vec());
            assert_eq!(ascii_option, b"False".to_vec());
            assert_eq!(content, b"abc".to_vec());
            assert_eq!(key_word, b"cat".to_vec());
        }
        _ => panic!("not an upload"),
    }
}

#[test]
fn other_paths_are_static_files() {
    match route_of(b"GET /index.html HTTP/1.1") {
        Some(Route::Static { path }) => assert_eq!(path, b"./index.html".to_vec()),
        _ => panic!("not static"),
    }
}

#[test]
fn request_without_two_spaces_is_ignored() {
    assert!(route_of(b"GET /index.html").is_none());
    assert!(route_of(b"").is_none());
}

#[test]
fn route_path_directly() {
    assert!(matches!(route_path(b"./new_round_extra"), Route::NewRound));
    match route_path(b"./") {
        Route::Static { path } => assert_eq!(path, b"./".to_vec()),
        _ => panic!("not static"),
    }
}

#[test]
fn request_that_is_not_utf8_fails() {
    assert!(request_fails(b"GET /index.html\xff HTTP/1.1"));
    assert!(request_fails(b"\xc3"));
}

#[test]
fn request_read_into_a_zeroed_buffer_routes() {
    let mut buf = [0u8; 700];
    let line = b"GET /check_user?username=ann HTTP/1.1\r\n\r\n";
    buf[..line.len()].copy_from_slice(line);
    match route_of(&buf) {
        Some(Route::CheckUser { username }) => assert_eq!(username, b"ann".to_vec()),
        _ => panic!("not a check"),
    }
}
