use vstd::prelude::*;

use crate::bytes::{
    bytes_eq, has_prefix, lemma_split_nonempty, split, split_bytes, starts_char, starts_with,
    to_vec, views,
};
use crate::text::text;
use vstd::utf8::valid_utf8;

verus! {

/// `=`, between an argument's name and its value.
pub const EQUALS: u8 = 61;

/// `&`, between arguments.
pub const AMPERSAND: u8 = 38;

/// ` `, between the parts of a request line.
pub const SPACE: u8 = 32;

/// `.`, put before a requested path.
pub const DOT: u8 = 46;

/// Request paths that select a handler, by prefix; any other path names a static file.
pub const LOGIN_PREFIX: &'static str = "./login";

pub const RETRIEVE_PREFIX: &'static str = "./retrieve";

pub const NEW_ROUND_PREFIX: &'static str = "./new_round";

pub const ASCII_ART_PREFIX: &'static str = "./get_ascii_art";

pub const CHECK_USER_PREFIX: &'static str = "./check_user";

pub const UPLOAD_PREFIX: &'static str = "./upload_question";

/// Where the argument text of each handler starts in the path.
pub const LOGIN_ARGS_AT: usize = 8;

pub const RETRIEVE_ARGS_AT: usize = 20;

pub const ASCII_ART_ARGS_AT: usize = 20;

pub const CHECK_USER_ARGS_AT: usize = 22;

pub const UPLOAD_ARGS_AT: usize = 18;

/// What a request asks the server to do, with the arguments it carries.
pub enum Route {
    Login { username: Vec<u8>, password: Vec<u8> },
    Retrieve { username: Vec<u8> },
    NewRound,
    AsciiArt { word: Vec<u8> },
    CheckUser { username: Vec<u8> },
    Upload {
        recipient: Vec<u8>,
        sender: Vec<u8>,
        ascii_option: Vec<u8>,
        content: Vec<u8>,
        key_word: Vec<u8>,
    },
    Static { path: Vec<u8> },
}

/// A route with its arguments as byte sequences.
pub enum RouteView {
    Login { username: Seq<u8>, password: Seq<u8> },
    Retrieve { username: Seq<u8> },
    NewRound,
    AsciiArt { word: Seq<u8> },
    CheckUser { username: Seq<u8> },
    Upload {
        recipient: Seq<u8>,
        sender: Seq<u8>,
        ascii_option: Seq<u8>,
        content: Seq<u8>,
        key_word: Seq<u8>,
    },
    Static { path: Seq<u8> },
}

impl View for Route {
    type V = RouteView;

    open spec fn view(&self) -> RouteView {
        match self {
            Route::Login { username, password } => RouteView::Login {
                username: username@,
                password: password@,
            },
            Route::Retrieve { username } => RouteView::Retrieve { username: username@ },
            Route::NewRound => RouteView::NewRound,
            Route::AsciiArt { word } => RouteView::AsciiArt { word: word@ },
            Route::CheckUser { username } => RouteView::CheckUser { username: username@ },
            Route::Upload { recipient, sender, ascii_option, content, key_word } =>
                RouteView::Upload {
                recipient: recipient@,
                sender: sender@,
                ascii_option: ascii_option@,
                content: content@,
                key_word: key_word@,
            },
            Route::Static { path } => RouteView::Static { path: path@ },
        }
    }
}

/// The value that the `key=value` arguments give to `key`: the value of its
/// last occurrence, or empty where it does not occur.
pub open spec fn query_value(args: Seq<Seq<u8>>, key: Seq<u8>) -> Seq<u8>
    decreases args.len(),
{
    if args.len() == 0 {
        Seq::empty()
    } else {
        let pair = split_bytes(args.last(), EQUALS);
        if pair[0] == key {
            pair[1]
        } else {
            query_value(args.drop_last(), key)
        }
    }
}

/// Every argument named `key` carries an `=`, so that it has a value.
pub open spec fn query_ok(args: Seq<Seq<u8>>, key: Seq<u8>) -> bool {
    forall|i: int|
        0 <= i < args.len() && (#[trigger] split_bytes(args[i], EQUALS))[0] == key ==> split_bytes(
            args[i],
            EQUALS,
        ).len() >= 2
}

/// The path can be cut at byte `n`: it is that long and a character starts there.
pub open spec fn cuts_at(path: Seq<u8>, n: int) -> bool {
    n <= path.len() && starts_char(path, n)
}

/// The `&`-separated arguments of `path` from byte `n` on.
pub open spec fn args_from(path: Seq<u8>, n: int) -> Seq<Seq<u8>> {
    split_bytes(path.skip(n), AMPERSAND)
}

/// The route that a request path selects.
pub open spec fn route_of(path: Seq<u8>) -> RouteView {
    if has_prefix(path, text(LOGIN_PREFIX)) {
        let args = args_from(path, LOGIN_ARGS_AT as int);
        RouteView::Login {
            username: query_value(args, text("username")),
            password: query_value(args, text("password")),
        }
    } else if has_prefix(path, text(RETRIEVE_PREFIX)) {
        RouteView::Retrieve { username: path.skip(RETRIEVE_ARGS_AT as int) }
    } else if has_prefix(path, text(NEW_ROUND_PREFIX)) {
        RouteView::NewRound
    } else if has_prefix(path, text(ASCII_ART_PREFIX)) {
        RouteView::AsciiArt { word: path.skip(ASCII_ART_ARGS_AT as int) }
    } else if has_prefix(path, text(CHECK_USER_PREFIX)) {
        RouteView::CheckUser { username: path.skip(CHECK_USER_ARGS_AT as int) }
    } else if has_prefix(path, text(UPLOAD_PREFIX)) {
        let args = args_from(path, UPLOAD_ARGS_AT as int);
        RouteView::Upload {
            recipient: query_value(args, text("recipient")),
            sender: query_value(args, text("sender")),
            ascii_option: query_value(args, text("ascii_option")),
            content: query_value(args, text("content")),
            key_word: query_value(args, text("word")),
        }
    } else {
        RouteView::Static { path }
    }
}

/// The handler of a path fails: its argument text cannot be cut out of the
/// path, or a named argument it reads has no `=`.
pub open spec fn route_fails(path: Seq<u8>) -> bool {
    if has_prefix(path, text(LOGIN_PREFIX)) {
        let args = args_from(path, LOGIN_ARGS_AT as int);
        !cuts_at(path, LOGIN_ARGS_AT as int) || !query_ok(args, text("username")) || !query_ok(
            args,
            text("password"),
        )
    } else if has_prefix(path, text(RETRIEVE_PREFIX)) {
        !cuts_at(path, RETRIEVE_ARGS_AT as int)
    } else if has_prefix(path, text(NEW_ROUND_PREFIX)) {
        false
    } else if has_prefix(path, text(ASCII_ART_PREFIX)) {
        !cuts_at(path, ASCII_ART_ARGS_AT as int)
    } else if has_prefix(path, text(CHECK_USER_PREFIX)) {
        !cuts_at(path, CHECK_USER_ARGS_AT as int)
    } else if has_prefix(path, text(UPLOAD_PREFIX)) {
        let args = args_from(path, UPLOAD_ARGS_AT as int);
        !cuts_at(path, UPLOAD_ARGS_AT as int) || !query_ok(args, text("recipient")) || !query_ok(
            args,
            text("sender"),
        ) || !query_ok(args, text("ascii_option")) || !query_ok(args, text("content"))
            || !query_ok(args, text("word"))
    } else {
        false
    }
}

/// The path that a request names: `.` followed by the text between its first
/// and second space, where it has two spaces.
pub open spec fn request_path(request: Seq<u8>) -> Option<Seq<u8>> {
    let parts = split_bytes(request, SPACE);
    if parts.len() >= 3 {
        Some(seq![DOT] + parts[1])
    } else {
        None
    }
}

/// Handling the request fails (the connection is dropped with no reply): it
/// is not UTF-8 text, or the handler of its path fails.
pub open spec fn request_fails_on(request: Seq<u8>) -> bool {
    !valid_utf8(request) || match request_path(request) {
        Some(path) => route_fails(path),
        None => false,
    }
}

/// `std::str::from_utf8`: succeeds exactly on well-formed UTF-8.
#[verifier::external_body]
fn is_utf8(bytes: &[u8]) -> (r: bool)
    ensures
        r == valid_utf8(bytes@),
{
    std::str::from_utf8(bytes).is_ok()
}

/// The route a request selects; `None` for a request without two spaces,
/// which gets no reply.
pub open spec fn request_route(request: Seq<u8>) -> Option<RouteView> {
    match request_path(request) {
        Some(path) => Some(route_of(path)),
        None => None,
    }
}

fn query_value_of(args: &Vec<Vec<u8>>, key: &[u8]) -> (r: Vec<u8>)
    requires
        query_ok(views(args@), key@),
    ensures
        r@ == query_value(views(args@), key@),
{
    let ghost a = views(args@);
    let mut i: usize = args.len();
    assert(a.take(i as int) =~= a);
    while i > 0
        invariant
            0 <= i <= args@.len(),
            a == views(args@),
            query_ok(a, key@),
            query_value(a, key@) == query_value(a.take(i as int), key@),
        decreases i,
    {
        let pair = split(args[i - 1].as_slice(), EQUALS);
        proof {
            lemma_split_nonempty(a[i - 1], EQUALS);
            assert(a.take(i as int).last() == a[i - 1]);
            assert(a.take(i as int).drop_last() =~= a.take(i - 1));
        }
        if bytes_eq(pair[0].as_slice(), key) {
            assert(split_bytes(a[i - 1], EQUALS)[0] == key@);
            return to_vec(pair[1].as_slice());
        }
        i -= 1;
    }
    assert(a.take(0) =~= Seq::<Seq<u8>>::empty());
    Vec::new()
}

fn query_ok_of(args: &Vec<Vec<u8>>, key: &[u8]) -> (r: bool)
    ensures
        r == query_ok(views(args@), key@),
{
    let ghost a = views(args@);
    let mut i: usize = 0;
    while i < args.len()
        invariant
            0 <= i <= args@.len(),
            a == views(args@),
            forall|j: int|
                0 <= j < i && (#[trigger] split_bytes(a[j], EQUALS))[0] == key@ ==> split_bytes(
                    a[j],
                    EQUALS,
                ).len() >= 2,
        decreases args@.len() - i,
    {
        let pair = split(args[i].as_slice(), EQUALS);
        proof {
            lemma_split_nonempty(a[i as int], EQUALS);
        }
        if pair.len() < 2 && bytes_eq(pair[0].as_slice(), key) {
            return false;
        }
        i += 1;
    }
    true
}

/// Whether `path` can be cut at byte `n`.
fn cuts_at_exec(path: &[u8], n: usize) -> (r: bool)
    ensures
        r == cuts_at(path@, n as int),
{
    n == path.len() || (n < path.len() && !(0x80 <= path[n] && path[n] <= 0xbf))
}

fn tail(path: &[u8], n: usize) -> (r: Vec<u8>)
    requires
        n <= path@.len(),
    ensures
        r@ == path@.skip(n as int),
{
    let t = vstd::slice::slice_subrange(path, n, path.len());
    assert(t@ =~= path@.skip(n as int));
    to_vec(t)
}

fn args_of(path: &[u8], n: usize) -> (r: Vec<Vec<u8>>)
    requires
        n <= path@.len(),
    ensures
        views(r@) == args_from(path@, n as int),
{
    let t = vstd::slice::slice_subrange(path, n, path.len());
    assert(t@ =~= path@.skip(n as int));
    split(t, AMPERSAND)
}

/// Whether the handler of `path` fails.
pub fn path_fails(path: &[u8]) -> (r: bool)
    ensures
        r == route_fails(path@),
{
    if starts_with(path, LOGIN_PREFIX.as_bytes()) {
        if !cuts_at_exec(path, LOGIN_ARGS_AT) {
            return true;
        }
        let args = args_of(path, LOGIN_ARGS_AT);
        !query_ok_of(&args, "username".as_bytes()) || !query_ok_of(&args, "password".as_bytes())
    } else if starts_with(path, RETRIEVE_PREFIX.as_bytes()) {
        !cuts_at_exec(path, RETRIEVE_ARGS_AT)
    } else if starts_with(path, NEW_ROUND_PREFIX.as_bytes()) {
        false
    } else if starts_with(path, ASCII_ART_PREFIX.as_bytes()) {
        !cuts_at_exec(path, ASCII_ART_ARGS_AT)
    } else if starts_with(path, CHECK_USER_PREFIX.as_bytes()) {
        !cuts_at_exec(path, CHECK_USER_ARGS_AT)
    } else if starts_with(path, UPLOAD_PREFIX.as_bytes()) {
        if !cuts_at_exec(path, UPLOAD_ARGS_AT) {
            return true;
        }
        let args = args_of(path, UPLOAD_ARGS_AT);
        !query_ok_of(&args, "recipient".as_bytes()) || !query_ok_of(&args, "sender".as_bytes())
            || !query_ok_of(&args, "ascii_option".as_bytes()) || !query_ok_of(
            &args,
            "content".as_bytes(),
        ) || !query_ok_of(&args, "word".as_bytes())
    } else {
        false
    }
}

/// The route that `path` selects, with its arguments cut out of it.
pub fn route_path(path: &[u8]) -> (r: Route)
    requires
        !route_fails(path@),
    ensures
        r@ == route_of(path@),
{
    if starts_with(path, LOGIN_PREFIX.as_bytes()) {
        let args = args_of(path, LOGIN_ARGS_AT);
        let username = query_value_of(&args, "username".as_bytes());
        let password = query_value_of(&args, "password".as_bytes());
        Route::Login { username, password }
    } else if starts_with(path, RETRIEVE_PREFIX.as_bytes()) {
        Route::Retrieve { username: tail(path, RETRIEVE_ARGS_AT) }
    } else if starts_with(path, NEW_ROUND_PREFIX.as_bytes()) {
        Route::NewRound
    } else if starts_with(path, ASCII_ART_PREFIX.as_bytes()) {
        Route::AsciiArt { word: tail(path, ASCII_ART_ARGS_AT) }
    } else if starts_with(path, CHECK_USER_PREFIX.as_bytes()) {
        Route::CheckUser { username: tail(path, CHECK_USER_ARGS_AT) }
    } else if starts_with(path, UPLOAD_PREFIX.as_bytes()) {
        let args = args_of(path, UPLOAD_ARGS_AT);
        Route::Upload {
            recipient: query_value_of(&args, "recipient".as_bytes()),
            sender: query_value_of(&args, "sender".as_bytes()),
            ascii_option: query_value_of(&args, "ascii_option".as_bytes()),
            content: query_value_of(&args, "content".as_bytes()),
            key_word: query_value_of(&args, "word".as_bytes()),
        }
    } else {
        Route::Static { path: to_vec(path) }
    }
}

/// The path a request names, if it has two spaces.
pub fn path_of_request(request: &[u8]) -> (r: Option<Vec<u8>>)
    ensures
        match r {
            Some(p) => request_path(request@) == Some(p@),
            None => request_path(request@) is None,
        },
{
    let parts = split(request, SPACE);
    if parts.len() >= 3 {
        let mut path: Vec<u8> = Vec::new();
        path.push(DOT);
        crate::bytes::push_bytes(&mut path, parts[1].as_slice());
        assert(path@ =~= seq![DOT] + views(parts@)[1]);
        Some(path)
    } else {
        None
    }
}

/// Whether handling `request` fails, so that the connection is dropped
/// without a reply.
pub fn request_fails(request: &[u8]) -> (r: bool)
    ensures
        r == request_fails_on(request@),
{
    if !is_utf8(request) {
        return true;
    }
    match path_of_request(request) {
        Some(path) => path_fails(path.as_slice()),
        None => false,
    }
}

/// The route a request selects: `None` where it holds fewer than two spaces.
pub fn route_request(request: &[u8]) -> (r: Option<Route>)
    requires
        !request_fails_on(request@),
    ensures
        match r {
            Some(route) => request_route(request@) == Some(route@),
            None => request_route(request@) is None,
        },
{
    match path_of_request(request) {
        Some(path) => Some(route_path(path.as_slice())),
        None => None,
    }
}

} // verus!
