use vstd::prelude::*;

use crate::bytes::{bytes_eq, push_bytes, split, split_bytes, to_vec, views};
use crate::peer::{peer_name, peer_name_of, PeerAddr};
use crate::queue::{StaticQueue, StaticRequest};
use crate::routing::{request_fails_on, request_route, route_request, Route, RouteView};
use crate::table::Table;
use crate::text::{push_text, text};

verus! {

/// The server's name, as it announces itself.
pub const SERVER_NAME: &'static str = "Zhtta Version 0.5";

/// Where the pending questions of each user are kept, one file per user.
pub const PENDING_PATH: &'static str =
    "/Users/zihaowang/Dropbox/Documents/UVa/Spring 2014/CS 4414/CS4414-Project/server/pending";

/// Where the ASCII art of each word is kept, one file per word.
pub const ASCII_ART_PATH: &'static str =
    "/Users/zihaowang/Dropbox/Documents/UVa/Spring 2014/CS 4414/CS4414-Project/server/ascii_art";

/// The address and port the server listens on unless told otherwise.
pub const IP: &'static str = "127.0.0.1";

pub const PORT: usize = 4414;

/// The head of a successful reply.
pub const HTTP_OK: &'static str =
    "HTTP/1.1 200 OK\r\nContent-Type: text/html; charset=UTF-8\r\n\r\n";

/// The whole of a refusal.
pub const HTTP_BAD: &'static str = "HTTP/1.1 404 Not Found\r\n\r\n";

/// `\n`, between the lines of the account and question files.
pub const NEWLINE: u8 = 10;

/// `,`, between the fields of a line.
pub const COMMA: u8 = 44;

/// The accounts that the lines of the account file define: every line of
/// exactly two comma-separated fields maps its first field (the user name) to
/// its second (the password); a later line for a name replaces an earlier one.
pub open spec fn accounts_of(lines: Seq<Seq<u8>>) -> Map<Seq<u8>, Seq<u8>>
    decreases lines.len(),
{
    if lines.len() == 0 {
        Map::empty()
    } else {
        let known = accounts_of(lines.drop_last());
        let fields = split_bytes(lines.last(), COMMA);
        if fields.len() == 2 {
            known.insert(fields[0], fields[1])
        } else {
            known
        }
    }
}

/// Whether each question has ASCII art, from the lines of the question file:
/// a line of exactly two fields whose second field is `true` or `false` says
/// so of the question in its first field; a later line replaces an earlier one.
pub open spec fn art_flags_of(lines: Seq<Seq<u8>>) -> Map<Seq<u8>, bool>
    decreases lines.len(),
{
    if lines.len() == 0 {
        Map::empty()
    } else {
        let known = art_flags_of(lines.drop_last());
        let fields = split_bytes(lines.last(), COMMA);
        if fields.len() == 2 && fields[1] == text("true") {
            known.insert(fields[0], true)
        } else if fields.len() == 2 && fields[1] == text("false") {
            known.insert(fields[0], false)
        } else {
            known
        }
    }
}

/// The words that can be drawn, in file order: the first field of every line
/// of exactly two fields, whatever its second field says.
pub open spec fn words_of(lines: Seq<Seq<u8>>) -> Seq<Seq<u8>>
    decreases lines.len(),
{
    if lines.len() == 0 {
        Seq::empty()
    } else {
        let known = words_of(lines.drop_last());
        let fields = split_bytes(lines.last(), COMMA);
        if fields.len() == 2 {
            known.push(fields[0])
        } else {
            known
        }
    }
}

/// The game server: the accounts, the questions and the static-file requests
/// waiting to be served, whose streams are of type `S`.
pub struct WebServer<S> {
    pub ip: Vec<u8>,
    pub port: usize,
    pub users: Table<Vec<u8>>,
    pub question_map: Table<bool>,
    pub questions: Vec<Vec<u8>>,
    pub static_queue: StaticQueue<S>,
}

impl<S> WebServer<S> {
    /// The password of each user.
    pub open spec fn accounts(&self) -> Map<Seq<u8>, Seq<u8>> {
        self.users@.map_values(|v: Vec<u8>| v@)
    }

    /// Whether each question has ASCII art.
    pub open spec fn art_flags(&self) -> Map<Seq<u8>, bool> {
        self.question_map@
    }

    /// The words that a new round draws from.
    pub open spec fn words(&self) -> Seq<Seq<u8>> {
        views(self.questions@)
    }

    /// A server for `ip` and `port` with the accounts of `users_file` and the
    /// questions of `questions_file` (the contents of the two files), and no
    /// request waiting.
    pub fn new(ip: &[u8], port: usize, users_file: &[u8], questions_file: &[u8]) -> (s: Self)
        ensures
            s.ip@ == ip@,
            s.port == port,
            s.accounts() == accounts_of(split_bytes(users_file@, NEWLINE)),
            s.art_flags() == art_flags_of(split_bytes(questions_file@, NEWLINE)),
            s.words() == words_of(split_bytes(questions_file@, NEWLINE)),
            s.static_queue.pending().len() == 0,
            s.static_queue.parked() == Map::<Seq<u8>, S>::empty(),
    {
        let entries = split(users_file, NEWLINE);
        let ghost lines = views(entries@);
        let mut users: Table<Vec<u8>> = Table::new();
        let mut i: usize = 0;
        while i < entries.len()
            invariant
                0 <= i <= entries@.len(),
                lines == views(entries@),
                users@.map_values(|v: Vec<u8>| v@) == accounts_of(lines.take(i as int)),
            decreases entries@.len() - i,
        {
            let fields = split(entries[i].as_slice(), COMMA);
            proof {
                assert(lines.take(i + 1).drop_last() =~= lines.take(i as int));
            }
            if fields.len() == 2 {
                let name = to_vec(fields[0].as_slice());
                let password = to_vec(fields[1].as_slice());
                let ghost before = users@;
                users.insert(name, password);
                proof {
                    assert(users@.map_values(|v: Vec<u8>| v@) =~= before.map_values(
                        |v: Vec<u8>| v@,
                    ).insert(name@, password@));
                }
            }
            i += 1;
        }
        assert(lines.take(entries@.len() as int) =~= lines);

        let entries = split(questions_file, NEWLINE);
        let ghost lines = views(entries@);
        let mut question_map: Table<bool> = Table::new();
        let mut questions: Vec<Vec<u8>> = Vec::new();
        let mut i: usize = 0;
        assert(views(questions@) =~= words_of(lines.take(0)));
        while i < entries.len()
            invariant
                0 <= i <= entries@.len(),
                lines == views(entries@),
                question_map@ == art_flags_of(lines.take(i as int)),
                views(questions@) == words_of(lines.take(i as int)),
            decreases entries@.len() - i,
        {
            let fields = split(entries[i].as_slice(), COMMA);
            proof {
                assert(lines.take(i + 1).drop_last() =~= lines.take(i as int));
            }
            if fields.len() == 2 {
                let word = fields[0].as_slice();
                if bytes_eq(fields[1].as_slice(), "true".as_bytes()) {
                    question_map.insert(to_vec(word), true);
                } else if bytes_eq(fields[1].as_slice(), "false".as_bytes()) {
                    question_map.insert(to_vec(word), false);
                }
                questions.push(to_vec(word));
                assert(views(questions@) =~= words_of(lines.take(i + 1)));
            }
            i += 1;
        }
        assert(lines.take(entries@.len() as int) =~= lines);

        let s = WebServer {
            ip: to_vec(ip),
            port,
            users,
            question_map,
            questions,
            static_queue: StaticQueue::new(),
        };
        s
    }
}


/// A successful reply carrying `body`.
pub open spec fn ok_reply(body: Seq<u8>) -> Seq<u8> {
    text(HTTP_OK) + body
}

/// A refusal.
pub open spec fn bad_reply() -> Seq<u8> {
    text(HTTP_BAD)
}

/// The reply to a login: success exactly where the user is known and the
/// password is the one on record.
pub open spec fn login_reply(
    accounts: Map<Seq<u8>, Seq<u8>>,
    username: Seq<u8>,
    password: Seq<u8>,
) -> Seq<u8> {
    if accounts.contains_key(username) && accounts[username] == password {
        ok_reply(Seq::empty())
    } else {
        bad_reply()
    }
}

/// The reply to a question whether a user is known.
pub open spec fn presence_reply(accounts: Map<Seq<u8>, Seq<u8>>, username: Seq<u8>) -> Seq<u8> {
    if accounts.contains_key(username) {
        ok_reply(Seq::empty())
    } else {
        bad_reply()
    }
}

/// The file that holds the questions waiting for `username`.
pub open spec fn pending_file(username: Seq<u8>) -> Seq<u8> {
    text(PENDING_PATH) + text("/") + username + text(".txt")
}

/// The file that holds the ASCII art of `word`.
pub open spec fn art_file(word: Seq<u8>) -> Seq<u8> {
    text(ASCII_ART_PATH) + text("/") + word + text(".txt")
}

/// The reply to a retrieval: the pending questions where the user's file
/// exists (`content` is what it held), a refusal where it does not.
pub open spec fn retrieve_reply(content: Option<Seq<u8>>) -> Seq<u8> {
    match content {
        Some(c) => ok_reply(c),
        None => bad_reply(),
    }
}

/// What an upload appends to the recipient's file: the sender and the word,
/// then `ASCII` where the drawing is ASCII art (`True`), the drawing itself
/// where it is not (`False`), and nothing for any other option.
pub open spec fn upload_record(
    sender: Seq<u8>,
    key_word: Seq<u8>,
    ascii_option: Seq<u8>,
    content: Seq<u8>,
) -> Seq<u8> {
    let head = text("sender: ") + sender + text("\n") + text("key: ") + key_word + text("\n");
    if ascii_option == text("True") {
        head + text("ASCII\n")
    } else if ascii_option == text("False") {
        head + content + text("\n")
    } else {
        head
    }
}

impl<S> WebServer<S> {
    /// The reply to a login with `username` and `password`.
    pub fn login_user(&self, username: &[u8], password: &[u8]) -> (r: Vec<u8>)
        ensures
            r@ == login_reply(self.accounts(), username@, password@),
    {
        let accepted = match self.users.get(username) {
            Some(stored) => bytes_eq(stored.as_slice(), password),
            None => false,
        };
        if accepted {
            Self::respond_with_static_file(&[])
        } else {
            bad()
        }
    }

    /// The reply to a question whether `username` is known.
    pub fn check_user_presence(&self, username: &[u8]) -> (r: Vec<u8>)
        ensures
            r@ == presence_reply(self.accounts(), username@),
    {
        if self.users.contains_key(username) {
            Self::respond_with_static_file(&[])
        } else {
            bad()
        }
    }

    /// The reply to a retrieval, given what the user's pending file held,
    /// or `None` where there was no such file. (Either way the file is left
    /// empty afterwards.)
    pub fn retrieve_question(content: Option<&[u8]>) -> (r: Vec<u8>)
        ensures
            r@ == retrieve_reply(
                match content {
                    Some(c) => Some(c@),
                    None => None,
                },
            ),
    {
        match content {
            Some(c) => Self::respond_with_static_file(c),
            None => bad(),
        }
    }

    /// The reply to a new round: the word at `index` among the words, drawn
    /// at random by the caller.
    pub fn generate_new_word(&self, index: usize) -> (r: Vec<u8>)
        requires
            index < self.words().len(),
        ensures
            r@ == ok_reply(self.words()[index as int]),
    {
        Self::respond_with_static_file(self.questions[index].as_slice())
    }

    /// The file of ASCII art to send for `word`, where the word has art;
    /// `None` where it has none, which is answered with a refusal.
    pub fn generate_ascii_art(&self, word: &[u8]) -> (r: Option<Vec<u8>>)
        requires
            self.art_flags().contains_key(word@),
        ensures
            match r {
                Some(file) => self.art_flags()[word@] && file@ == art_file(word@),
                None => !self.art_flags()[word@],
            },
    {
        match self.question_map.get(word) {
            Some(flag) => {
                if *flag {
                    let mut file: Vec<u8> = Vec::new();
                    push_text(&mut file, ASCII_ART_PATH);
                    push_text(&mut file, "/");
                    push_bytes(&mut file, word);
                    push_text(&mut file, ".txt");
                    assert(file@ =~= art_file(word@));
                    Some(file)
                } else {
                    None
                }
            },
            None => None,
        }
    }

    /// An upload of a question from `sender` to `recipient`: the file to
    /// append to and what to append. The reply is always a success.
    pub fn upload_question(
        recipient: &[u8],
        sender: &[u8],
        key_word: &[u8],
        ascii_option: &[u8],
        content: &[u8],
    ) -> (r: (Vec<u8>, Vec<u8>))
        ensures
            r.0@ == pending_file(recipient@),
            r.1@ == upload_record(sender@, key_word@, ascii_option@, content@),
    {
        let mut record: Vec<u8> = Vec::new();
        push_text(&mut record, "sender: ");
        push_bytes(&mut record, sender);
        push_text(&mut record, "\n");
        push_text(&mut record, "key: ");
        push_bytes(&mut record, key_word);
        push_text(&mut record, "\n");
        if bytes_eq(ascii_option, "True".as_bytes()) {
            push_text(&mut record, "ASCII\n");
        } else if bytes_eq(ascii_option, "False".as_bytes()) {
            push_bytes(&mut record, content);
            push_text(&mut record, "\n");
        }
        assert(record@ =~= upload_record(sender@, key_word@, ascii_option@, content@));
        (pending_file_of(recipient), record)
    }

    /// A successful reply carrying the contents of a file.
    pub fn respond_with_static_file(contents: &[u8]) -> (r: Vec<u8>)
        ensures
            r@ == ok_reply(contents@),
    {
        let mut r: Vec<u8> = Vec::new();
        push_text(&mut r, HTTP_OK);
        push_bytes(&mut r, contents);
        r
    }
}

/// A refusal.
pub fn bad() -> (r: Vec<u8>)
    ensures
        r@ == bad_reply(),
{
    let mut r: Vec<u8> = Vec::new();
    push_text(&mut r, HTTP_BAD);
    assert(r@ =~= bad_reply());
    r
}

/// The file that holds the questions waiting for `username`.
pub fn pending_file_of(username: &[u8]) -> (r: Vec<u8>)
    ensures
        r@ == pending_file(username@),
{
    let mut file: Vec<u8> = Vec::new();
    push_text(&mut file, PENDING_PATH);
    push_text(&mut file, "/");
    push_bytes(&mut file, username);
    push_text(&mut file, ".txt");
    assert(file@ =~= pending_file(username@));
    file
}


/// What the world tells the server.
pub enum Event<S> {
    /// A connection from `peer` sent `request`; `stream` answers it.
    Connection { request: Vec<u8>, peer: Option<PeerAddr>, stream: S },
    /// A static-file request was queued and may now be served.
    StaticReady,
}

pub enum EventView<S> {
    Connection { request: Seq<u8>, peer: Option<PeerAddr>, stream: S },
    StaticReady,
}

impl<S> View for Event<S> {
    type V = EventView<S>;

    open spec fn view(&self) -> EventView<S> {
        match self {
            Event::Connection { request, peer, stream } => EventView::Connection {
                request: request@,
                peer: *peer,
                stream: *stream,
            },
            Event::StaticReady => EventView::StaticReady,
        }
    }
}

/// What the server asks the world to do.
pub enum Action<S> {
    /// Close the stream without a reply.
    Close { stream: S },
    /// Send `response` and close the stream.
    Reply { stream: S, response: Vec<u8> },
    /// Reply with `retrieve_question` on what `file` holds (or on `None` where
    /// there is no such file, which is then created), then empty the file.
    SendPending { stream: S, file: Vec<u8> },
    /// Draw an index among the words and reply with `generate_new_word`.
    SendNewWord { stream: S },
    /// Reply with a success carrying what `file` holds.
    SendAsciiArt { stream: S, file: Vec<u8> },
    /// Append `record` to `file` (creating it), then send `response`.
    StorePending { stream: S, file: Vec<u8>, record: Vec<u8>, response: Vec<u8> },
    /// A static-file request waits in the queue; announce it. `displaced` is
    /// a stream that its stream replaced, to be closed.
    Queued { displaced: Option<S> },
    /// Reply on the `parked` stream with a success carrying the static file at `path`;
    /// the run stops where no stream was parked for the request.
    ServeStatic { parked: Option<S>, path: Vec<u8> },
    /// Nothing waits.
    Idle,
}

pub enum ActionView<S> {
    Close { stream: S },
    Reply { stream: S, response: Seq<u8> },
    SendPending { stream: S, file: Seq<u8> },
    SendNewWord { stream: S },
    SendAsciiArt { stream: S, file: Seq<u8> },
    StorePending { stream: S, file: Seq<u8>, record: Seq<u8>, response: Seq<u8> },
    Queued { displaced: Option<S> },
    ServeStatic { parked: Option<S>, path: Seq<u8> },
    Idle,
}

impl<S> View for Action<S> {
    type V = ActionView<S>;

    open spec fn view(&self) -> ActionView<S> {
        match self {
            Action::Close { stream } => ActionView::Close { stream: *stream },
            Action::Reply { stream, response } => ActionView::Reply {
                stream: *stream,
                response: response@,
            },
            Action::SendPending { stream, file } => ActionView::SendPending {
                stream: *stream,
                file: file@,
            },
            Action::SendNewWord { stream } => ActionView::SendNewWord { stream: *stream },
            Action::SendAsciiArt { stream, file } => ActionView::SendAsciiArt {
                stream: *stream,
                file: file@,
            },
            Action::StorePending { stream, file, record, response } => ActionView::StorePending {
                stream: *stream,
                file: file@,
                record: record@,
                response: response@,
            },
            Action::Queued { displaced } => ActionView::Queued { displaced: *displaced },
            Action::ServeStatic { parked, path } => ActionView::ServeStatic {
                parked: *parked,
                path: path@,
            },
            Action::Idle => ActionView::Idle,
        }
    }
}

/// The value of `k` in `m`, if it has one.
pub open spec fn lookup<S>(m: Map<Seq<u8>, S>, k: Seq<u8>) -> Option<S> {
    if m.contains_key(k) {
        Some(m[k])
    } else {
        None
    }
}

impl<S> WebServer<S> {
    /// Handling `event` fails: the request's handler fails, or it asks for
    /// the ASCII art of a word that is not a question.
    pub open spec fn event_fails(&self, event: EventView<S>) -> bool {
        match event {
            EventView::Connection { request, .. } => request_fails_on(request) || match request_route(
                request,
            ) {
                Some(RouteView::AsciiArt { word }) => !self.art_flags().contains_key(word),
                _ => false,
            },
            EventView::StaticReady => false,
        }
    }

    /// What the server does on `event`.
    pub open spec fn action_for(&self, event: EventView<S>) -> ActionView<S> {
        match event {
            EventView::Connection { request, peer, stream } => match request_route(request) {
                None => ActionView::Close { stream },
                Some(RouteView::Login { username, password }) => ActionView::Reply {
                    stream,
                    response: login_reply(self.accounts(), username, password),
                },
                Some(RouteView::Retrieve { username }) => ActionView::SendPending {
                    stream,
                    file: pending_file(username),
                },
                Some(RouteView::NewRound) => ActionView::SendNewWord { stream },
                Some(RouteView::AsciiArt { word }) => if self.art_flags()[word] {
                    ActionView::SendAsciiArt { stream, file: art_file(word) }
                } else {
                    ActionView::Reply { stream, response: bad_reply() }
                },
                Some(RouteView::CheckUser { username }) => ActionView::Reply {
                    stream,
                    response: presence_reply(self.accounts(), username),
                },
                Some(RouteView::Upload { recipient, sender, ascii_option, content, key_word }) =>
                    ActionView::StorePending {
                    stream,
                    file: pending_file(recipient),
                    record: upload_record(sender, key_word, ascii_option, content),
                    response: ok_reply(Seq::empty()),
                },
                Some(RouteView::Static { path }) => ActionView::Queued {
                    displaced: lookup(self.static_queue.parked(), peer_name_of(peer)),
                },
            },
            EventView::StaticReady => if self.static_queue.pending().len() == 0 {
                ActionView::Idle
            } else {
                let first = self.static_queue.pending()[0];
                ActionView::ServeStatic {
                    parked: lookup(self.static_queue.parked(), first.0),
                    path: first.1,
                }
            },
        }
    }

    /// The waiting static-file requests after `event`.
    pub open spec fn pending_after(&self, event: EventView<S>) -> Seq<(Seq<u8>, Seq<u8>)> {
        let pending = self.static_queue.pending();
        match event {
            EventView::Connection { request, peer, stream } => match request_route(request) {
                Some(RouteView::Static { path }) => pending.push((peer_name_of(peer), path)),
                _ => pending,
            },
            EventView::StaticReady => if pending.len() == 0 {
                pending
            } else {
                pending.drop_first()
            },
        }
    }

    /// The parked streams after `event`.
    pub open spec fn parked_after(&self, event: EventView<S>) -> Map<Seq<u8>, S> {
        let parked = self.static_queue.parked();
        match event {
            EventView::Connection { request, peer, stream } => match request_route(request) {
                Some(RouteView::Static { path }) => parked.insert(peer_name_of(peer), stream),
                _ => parked,
            },
            EventView::StaticReady => if self.static_queue.pending().len() == 0 {
                parked
            } else {
                parked.remove(self.static_queue.pending()[0].0)
            },
        }
    }

    /// Everything but the static-file queue is as in `other`.
    pub open spec fn same_tables(&self, other: &Self) -> bool {
        &&& self.ip@ == other.ip@
        &&& self.port == other.port
        &&& self.accounts() == other.accounts()
        &&& self.art_flags() == other.art_flags()
        &&& self.words() == other.words()
    }

    /// The name of the peer that a stream belongs to.
    pub fn get_peer_name(addr: Option<PeerAddr>) -> (name: Vec<u8>)
        ensures
            name@ == peer_name_of(addr),
    {
        peer_name(addr)
    }

    /// Parks the stream of a static-file request from `peer` and queues the
    /// request; hands back the stream that was parked under the same name.
    pub fn enqueue_static_file_request(&mut self, peer: Option<PeerAddr>, path: Vec<u8>, stream: S) -> (displaced: Option<S>)
        ensures
            final(self).same_tables(old(self)),
            final(self).static_queue.pending() == old(self).static_queue.pending().push(
                (peer_name_of(peer), path@),
            ),
            final(self).static_queue.parked() == old(self).static_queue.parked().insert(
                peer_name_of(peer),
                stream,
            ),
            displaced == lookup(old(self).static_queue.parked(), peer_name_of(peer)),
    {
        let name = Self::get_peer_name(peer);
        self.static_queue.enqueue(name, path, stream)
    }

    /// Takes the oldest static-file request and its parked stream.
    pub fn dequeue_static_file_request(&mut self) -> (r: Option<(StaticRequest, Option<S>)>)
        ensures
            final(self).same_tables(old(self)),
            old(self).static_queue.pending().len() == 0 ==> {
                &&& r is None
                &&& final(self).static_queue.pending() == old(self).static_queue.pending()
                &&& final(self).static_queue.parked() == old(self).static_queue.parked()
            },
            old(self).static_queue.pending().len() > 0 ==> {
                let first = old(self).static_queue.pending()[0];
                &&& r matches Some((request, stream))
                &&& request@ == first
                &&& stream == lookup(old(self).static_queue.parked(), first.0)
                &&& final(self).static_queue.pending() == old(self).static_queue.pending().drop_first()
                &&& final(self).static_queue.parked() == old(self).static_queue.parked().remove(first.0)
            },
    {
        self.static_queue.dequeue()
    }

    /// One step of the server: the action to take on `event`, with the
    /// static-file queue brought up to date.
    pub fn run(&mut self, event: Event<S>) -> (r: Action<S>)
        requires
            !old(self).event_fails(event@),
        ensures
            final(self).same_tables(old(self)),
            final(self).static_queue.pending() == old(self).pending_after(event@),
            final(self).static_queue.parked() == old(self).parked_after(event@),
            r@ == old(self).action_for(event@),
    {
        match event {
            Event::Connection { request, peer, stream } => {
                match route_request(request.as_slice()) {
                    None => Action::Close { stream },
                    Some(Route::Login { username, password }) => {
                        let response = self.login_user(username.as_slice(), password.as_slice());
                        Action::Reply { stream, response }
                    },
                    Some(Route::Retrieve { username }) => {
                        Action::SendPending { stream, file: pending_file_of(username.as_slice()) }
                    },
                    Some(Route::NewRound) => Action::SendNewWord { stream },
                    Some(Route::AsciiArt { word }) => {
                        match self.generate_ascii_art(word.as_slice()) {
                            Some(file) => Action::SendAsciiArt { stream, file },
                            None => Action::Reply { stream, response: bad() },
                        }
                    },
                    Some(Route::CheckUser { username }) => {
                        let response = self.check_user_presence(username.as_slice());
                        Action::Reply { stream, response }
                    },
                    Some(Route::Upload { recipient, sender, ascii_option, content, key_word }) => {
                        let (file, record) = Self::upload_question(
                            recipient.as_slice(),
                            sender.as_slice(),
                            key_word.as_slice(),
                            ascii_option.as_slice(),
                            content.as_slice(),
                        );
                        let response = Self::respond_with_static_file(&[]);
                        Action::StorePending { stream, file, record, response }
                    },
                    Some(Route::Static { path }) => {
                        let displaced = self.enqueue_static_file_request(peer, path, stream);
                        Action::Queued { displaced }
                    },
                }
            },
            Event::StaticReady => {
                match self.dequeue_static_file_request() {
                    None => Action::Idle,
                    Some((request, parked)) => Action::ServeStatic { parked, path: request.path },
                }
            },
        }
    }
}

} // verus!
