use vstd::prelude::*;

use crate::bytes::{
    count_of, join_bytes, lemma_split_concat, lemma_split_of_join, lemma_split_pair, lemma_split_len, lemma_split_nonempty, lemma_split_single,
    split_bytes,
};
use crate::peer::peer_name_of;
use crate::queue::StaticQueue;
use crate::routing::{
    query_value, request_path, request_route, route_of, RouteView, AMPERSAND, DOT, EQUALS, SPACE,
};
use crate::server::{
    accounts_of, ok_reply, pending_file, retrieve_reply, words_of, ActionView, EventView,
    WebServer, ASCII_ART_PATH, COMMA, HTTP_BAD, HTTP_OK, PENDING_PATH,
};
use crate::text::text;

verus! {

/// `after` is the server as `run` leaves `before` on `event`.
pub open spec fn stepped<S>(before: WebServer<S>, event: EventView<S>, after: WebServer<S>) -> bool {
    &&& after.same_tables(&before)
    &&& after.static_queue.pending() == before.pending_after(event)
    &&& after.static_queue.parked() == before.parked_after(event)
}

/// `event` is a connection whose request asks for the static file at `path`.
pub open spec fn asks_static_file<S>(event: EventView<S>, path: Seq<u8>) -> bool {
    event matches EventView::Connection { request, .. } && request_route(request) == Some(
        RouteView::Static { path },
    )
}

/// First come, first served: a static-file request is queued behind every
/// request already waiting, so the next one served is the oldest waiting
/// request, or this one where none was waiting.
pub proof fn law_first_come_first_served<S>(
    before: WebServer<S>,
    event: EventView<S>,
    path: Seq<u8>,
    after: WebServer<S>,
)
    requires
        stepped(before, event, after),
        asks_static_file(event, path),
    ensures
        after.static_queue.pending().len() == before.static_queue.pending().len() + 1,
        before.static_queue.pending().len() > 0 ==> after.static_queue.pending()[0]
            == before.static_queue.pending()[0],
        before.static_queue.pending().len() == 0 ==> (after.action_for(EventView::StaticReady)
            matches ActionView::ServeStatic { parked, path: served } && served == path
            && parked == Some(event->stream)),
{
}

/// Every waiting request has a stream parked under its peer name, no two
/// waiting requests share a peer name, and no other stream is parked.
pub open spec fn queue_consistent<S>(q: StaticQueue<S>) -> bool {
    let p = q.pending();
    &&& forall|i: int, j: int| 0 <= i < p.len() && 0 <= j < p.len() && i != j ==> p[i].0 != p[j].0
    &&& forall|k: Seq<u8>| #[trigger]
        q.parked().contains_key(k) <==> exists|i: int| 0 <= i < p.len() && p[i].0 == k
}

/// A consistent queue serves every request with its own stream.
pub proof fn law_served_request_has_stream<S>(server: WebServer<S>)
    requires
        queue_consistent(server.static_queue),
        server.static_queue.pending().len() > 0,
    ensures
        server.action_for(EventView::StaticReady) matches ActionView::ServeStatic { parked, path }
            && parked is Some && path == server.static_queue.pending()[0].1,
{
    assert(server.static_queue.parked().contains_key(server.static_queue.pending()[0].0));
}

/// Every step keeps the queue consistent, as long as a static-file request
/// does not come from a peer whose earlier request still waits.
pub proof fn law_queue_stays_consistent<S>(
    before: WebServer<S>,
    event: EventView<S>,
    after: WebServer<S>,
)
    requires
        stepped(before, event, after),
        queue_consistent(before.static_queue),
        event matches EventView::Connection { peer, .. } ==> forall|i: int|
            0 <= i < before.static_queue.pending().len() ==> before.static_queue.pending()[i].0
                != peer_name_of(peer),
    ensures
        queue_consistent(after.static_queue),
{
    let p = before.static_queue.pending();
    let q = after.static_queue.pending();
    match event {
        EventView::Connection { request, peer, stream } => {
            match request_route(request) {
                Some(RouteView::Static { path }) => {
                    let name = peer_name_of(peer);
                    assert(q == p.push((name, path)));
                    assert forall|k: Seq<u8>| #[trigger]
                        after.static_queue.parked().contains_key(k) <==> exists|i: int|
                            0 <= i < q.len() && q[i].0 == k by {
                        if k == name {
                            assert(q[p.len() as int].0 == k);
                        } else if after.static_queue.parked().contains_key(k) {
                            let i = choose|i: int| 0 <= i < p.len() && p[i].0 == k;
                            assert(q[i] == p[i]);
                        } else {
                            if exists|i: int| 0 <= i < q.len() && q[i].0 == k {
                                let i = choose|i: int| 0 <= i < q.len() && q[i].0 == k;
                                assert(q[i] == p[i]);
                            }
                        }
                    }
                },
                _ => {},
            }
        },
        EventView::StaticReady => {
            if p.len() > 0 {
                let first = p[0].0;
                assert(q == p.drop_first());
                assert forall|k: Seq<u8>| #[trigger]
                    after.static_queue.parked().contains_key(k) <==> exists|i: int|
                        0 <= i < q.len() && q[i].0 == k by {
                    if after.static_queue.parked().contains_key(k) {
                        let i = choose|i: int| 0 <= i < p.len() && p[i].0 == k;
                        assert(i != 0);
                        assert(q[i - 1] == p[i]);
                    }
                    if exists|i: int| 0 <= i < q.len() && q[i].0 == k {
                        let i = choose|i: int| 0 <= i < q.len() && q[i].0 == k;
                        assert(q[i] == p[i + 1]);
                        assert(p[i + 1].0 != p[0].0);
                    }
                }
            }
        },
    }
}

/// Different users have different pending files.
pub proof fn law_pending_files_distinct(a: Seq<u8>, b: Seq<u8>)
    ensures
        pending_file(a) == pending_file(b) ==> a == b,
{
    if pending_file(a) == pending_file(b) {
        let head = text(crate::server::PENDING_PATH) + text("/");
        let tail = text(".txt");
        assert(pending_file(a) == head + a + tail);
        assert(pending_file(b) == head + b + tail);
        assert(a.len() == b.len());
        assert forall|i: int| 0 <= i < a.len() implies a[i] == b[i] by {
            assert(pending_file(a)[head.len() + i] == a[i]);
            assert(pending_file(b)[head.len() + i] == b[i]);
        }
        assert(a =~= b);
    }
}

/// What is uploaded for a user is what that user's next retrieval gets: an
/// upload for `recipient` and a retrieval by `username` use the same file
/// exactly when the two names are the same, and the retrieval replies with
/// all the file holds, the uploaded record last.
pub proof fn law_upload_then_retrieve(
    recipient: Seq<u8>,
    username: Seq<u8>,
    before: Seq<u8>,
    record: Seq<u8>,
)
    ensures
        (pending_file(recipient) == pending_file(username)) == (recipient == username),
        retrieve_reply(Some(before + record)) == ok_reply(before + record),
        ok_reply(before + record).subrange(
            ok_reply(before + record).len() - record.len(),
            ok_reply(before + record).len() as int,
        ) == record,
{
    law_pending_files_distinct(recipient, username);
    let r = ok_reply(before + record);
    assert(r.subrange(r.len() - record.len(), r.len() as int) =~= record);
}


/// Line `i` of the account file names a user: it has exactly two fields, the
/// first being `username`.
pub open spec fn names_user(lines: Seq<Seq<u8>>, i: int, username: Seq<u8>) -> bool {
    split_bytes(lines[i], COMMA).len() == 2 && split_bytes(lines[i], COMMA)[0] == username
}

/// A user's password is the one on the last line of the account file that
/// names the user.
pub proof fn law_last_account_line_wins(lines: Seq<Seq<u8>>, i: int, username: Seq<u8>)
    requires
        0 <= i < lines.len(),
        names_user(lines, i, username),
        forall|j: int| i < j < lines.len() ==> !names_user(lines, j, username),
    ensures
        accounts_of(lines).contains_key(username),
        accounts_of(lines)[username] == split_bytes(lines[i], COMMA)[1],
    decreases lines.len(),
{
    if i < lines.len() - 1 {
        let d = lines.drop_last();
        assert forall|j: int| i < j < d.len() implies !names_user(d, j, username) by {
            assert(d[j] == lines[j]);
            assert(!names_user(lines, j, username));
        }
        assert(d[i] == lines[i]);
        law_last_account_line_wins(d, i, username);
        assert(!names_user(lines, lines.len() - 1, username));
    }
}

/// A user that no line of the account file names is unknown.
pub proof fn law_unnamed_user_unknown(lines: Seq<Seq<u8>>, username: Seq<u8>)
    requires
        forall|j: int| 0 <= j < lines.len() ==> !names_user(lines, j, username),
    ensures
        !accounts_of(lines).contains_key(username),
    decreases lines.len(),
{
    if lines.len() > 0 {
        let d = lines.drop_last();
        assert forall|j: int| 0 <= j < d.len() implies !names_user(d, j, username) by {
            assert(d[j] == lines[j]);
            assert(!names_user(lines, j, username));
        }
        law_unnamed_user_unknown(d, username);
        assert(!names_user(lines, lines.len() - 1, username));
    }
}


proof fn lemma_no_sep_count(s: Seq<u8>, sep: u8)
    requires
        !s.contains(sep),
    ensures
        count_of(s, sep) == 0,
    decreases s.len(),
{
    if s.len() > 0 {
        let t = s.drop_last();
        assert(!t.contains(sep)) by {
            if t.contains(sep) {
                let k = choose|k: int| 0 <= k < t.len() && t[k] == sep;
                assert(s[k] == sep);
            }
        }
        assert(s[s.len() - 1] == s.last());
        lemma_no_sep_count(t, sep);
    }
}

proof fn lemma_at_most_one_sep(s: Seq<u8>, sep: u8)
    requires
        forall|i: int, j: int| 0 <= i < j < s.len() ==> !(s[i] == sep && s[j] == sep),
    ensures
        count_of(s, sep) <= 1,
    decreases s.len(),
{
    if s.len() > 0 {
        let t = s.drop_last();
        assert forall|i: int, j: int| 0 <= i < j < t.len() implies !(t[i] == sep && t[j] == sep) by {
            assert(t[i] == s[i] && t[j] == s[j]);
        }
        lemma_at_most_one_sep(t, sep);
        if s.last() == sep {
            assert(!t.contains(sep)) by {
                if t.contains(sep) {
                    let k = choose|k: int| 0 <= k < t.len() && t[k] == sep;
                    assert(s[k] == sep && s[s.len() - 1] == sep);
                }
            }
            lemma_no_sep_count(t, sep);
        }
    }
}

/// A request's path is `.` followed by the bytes between its first and its
/// second space, whatever follows the second space.
pub proof fn law_request_path_between_first_spaces(request: Seq<u8>, i: int, j: int)
    requires
        0 <= i < j < request.len(),
        request[i] == SPACE,
        request[j] == SPACE,
        forall|k: int| 0 <= k < j && k != i ==> request[k] != SPACE,
    ensures
        request_path(request) == Some(seq![DOT] + request.subrange(i + 1, j)),
{
    let a = request.take(i);
    let b = request.subrange(i + 1, j);
    let c = request.skip(j + 1);
    assert(request =~= a.push(SPACE) + (b.push(SPACE) + c));
    assert(!a.contains(SPACE)) by {
        if a.contains(SPACE) {
            let k = choose|k: int| 0 <= k < a.len() && a[k] == SPACE;
            assert(request[k] == SPACE);
        }
    }
    assert(!b.contains(SPACE)) by {
        if b.contains(SPACE) {
            let k = choose|k: int| 0 <= k < b.len() && b[k] == SPACE;
            assert(request[i + 1 + k] == SPACE);
        }
    }
    lemma_split_concat(a, b.push(SPACE) + c, SPACE);
    lemma_split_concat(b, c, SPACE);
    lemma_split_single(a, SPACE);
    lemma_split_single(b, SPACE);
    lemma_split_nonempty(c, SPACE);
    let parts = split_bytes(request, SPACE);
    assert(parts == seq![a] + (seq![b] + split_bytes(c, SPACE)));
    assert(parts[1] == b);
}

/// A request with fewer than two spaces names no path.
pub proof fn law_request_without_two_spaces(request: Seq<u8>)
    requires
        forall|i: int, j: int|
            0 <= i < j < request.len() ==> !(request[i] == SPACE && request[j] == SPACE),
    ensures
        request_path(request) is None,
{
    lemma_at_most_one_sep(request, SPACE);
    lemma_split_len(request, SPACE);
}

/// A login is answered with success exactly when the user is known and the
/// password given is the one on record, and with a refusal otherwise.
pub proof fn law_login_step<S>(
    server: WebServer<S>,
    request: Seq<u8>,
    peer: Option<crate::peer::PeerAddr>,
    stream: S,
    username: Seq<u8>,
    password: Seq<u8>,
)
    requires
        request_route(request) == Some((RouteView::Login { username, password })),
    ensures
        server.action_for((EventView::Connection { request, peer, stream })) == (ActionView::Reply {
            stream,
            response: if server.accounts().contains_key(username) && server.accounts()[username]
                == password {
                text(HTTP_OK)
            } else {
                text(HTTP_BAD)
            },
        }),
{
    assert(text(HTTP_OK) + Seq::<u8>::empty() =~= text(HTTP_OK));
}

/// A question whether a user is known is answered with success exactly when
/// the user has an account, whatever the password.
pub proof fn law_check_user_step<S>(
    server: WebServer<S>,
    request: Seq<u8>,
    peer: Option<crate::peer::PeerAddr>,
    stream: S,
    username: Seq<u8>,
)
    requires
        request_route(request) == Some((RouteView::CheckUser { username })),
    ensures
        server.action_for((EventView::Connection { request, peer, stream })) == (ActionView::Reply {
            stream,
            response: if server.accounts().contains_key(username) {
                text(HTTP_OK)
            } else {
                text(HTTP_BAD)
            },
        }),
{
    assert(text(HTTP_OK) + Seq::<u8>::empty() =~= text(HTTP_OK));
}

/// The file of a word's ASCII art: in the art directory, named after the word.
pub open spec fn art_path(word: Seq<u8>) -> Seq<u8> {
    text(ASCII_ART_PATH) + text("/") + word + text(".txt")
}

/// The file of a user's pending questions: in the pending directory, named
/// after the user.
pub open spec fn pending_path(username: Seq<u8>) -> Seq<u8> {
    text(PENDING_PATH) + text("/") + username + text(".txt")
}

/// An ASCII-art request for a word flagged `true` sends that word's art file;
/// for a word flagged `false` it is refused.
pub proof fn law_ascii_art_step<S>(
    server: WebServer<S>,
    request: Seq<u8>,
    peer: Option<crate::peer::PeerAddr>,
    stream: S,
    word: Seq<u8>,
)
    requires
        request_route(request) == Some((RouteView::AsciiArt { word })),
        server.art_flags().contains_key(word),
    ensures
        server.action_for((EventView::Connection { request, peer, stream })) == (if server.art_flags()[word] {
            ActionView::SendAsciiArt { stream, file: art_path(word) }
        } else {
            ActionView::Reply { stream, response: text(HTTP_BAD) }
        }),
{
}

/// No art file is a pending-questions file.
pub proof fn law_art_files_are_not_pending_files(word: Seq<u8>, username: Seq<u8>)
    ensures
        art_path(word) != pending_path(username),
{
    reveal_strlit(
        "/Users/zihaowang/Dropbox/Documents/UVa/Spring 2014/CS 4414/CS4414-Project/server/ascii_art",
    );
    reveal_strlit(
        "/Users/zihaowang/Dropbox/Documents/UVa/Spring 2014/CS 4414/CS4414-Project/server/pending",
    );
    broadcast use vstd::string::group_string_axioms;

    assert(vstd::string::is_ascii(ASCII_ART_PATH));
    assert(vstd::string::is_ascii(PENDING_PATH));
    let k = 81int;
    assert(text(ASCII_ART_PATH)[k] == 97u8);
    assert(text(PENDING_PATH)[k] == 112u8);
    assert(art_path(word)[k] == text(ASCII_ART_PATH)[k]);
    assert(pending_path(username)[k] == text(PENDING_PATH)[k]);
}

/// A retrieval sends the user's pending-questions file.
pub proof fn law_retrieve_step<S>(
    server: WebServer<S>,
    request: Seq<u8>,
    peer: Option<crate::peer::PeerAddr>,
    stream: S,
    username: Seq<u8>,
)
    requires
        request_route(request) == Some((RouteView::Retrieve { username })),
    ensures
        server.action_for((EventView::Connection { request, peer, stream })) == (
        ActionView::SendPending { stream, file: pending_path(username) }),
{
}

/// An upload appends to the recipient's pending file the sender, the word,
/// and the drawing (or `ASCII` for ASCII art), and always succeeds.
pub proof fn law_upload_step<S>(
    server: WebServer<S>,
    request: Seq<u8>,
    peer: Option<crate::peer::PeerAddr>,
    stream: S,
    recipient: Seq<u8>,
    sender: Seq<u8>,
    ascii_option: Seq<u8>,
    content: Seq<u8>,
    key_word: Seq<u8>,
)
    requires
        request_route(request) == Some(
            (RouteView::Upload { recipient, sender, ascii_option, content, key_word }),
        ),
    ensures
        server.action_for((EventView::Connection { request, peer, stream })) == (
        ActionView::StorePending {
            stream,
            file: pending_path(recipient),
            record: text("sender: ") + sender + text("\n") + text("key: ") + key_word + text("\n")
                + if ascii_option == text("True") {
                text("ASCII\n")
            } else if ascii_option == text("False") {
                content + text("\n")
            } else {
                Seq::empty()
            },
            response: text(HTTP_OK),
        }),
{
    assert(text(HTTP_OK) + Seq::<u8>::empty() =~= text(HTTP_OK));
    let head = text("sender: ") + sender + text("\n") + text("key: ") + key_word + text("\n");
    let record = crate::server::upload_record(sender, key_word, ascii_option, content);
    if ascii_option == text("True") {
        assert(record == head + text("ASCII\n"));
    } else if ascii_option == text("False") {
        assert(record == head + (content + text("\n")));
    } else {
        assert(head + Seq::<u8>::empty() =~= head);
    }
}

/// Line `i` of the question file has exactly two fields.
pub open spec fn two_fields(lines: Seq<Seq<u8>>, i: int) -> bool {
    split_bytes(lines[i], COMMA).len() == 2
}

/// Every word that can be drawn is the first field of a two-field line of the
/// question file, whatever that line's second field says.
pub proof fn law_each_word_is_a_first_field(lines: Seq<Seq<u8>>, w: int)
    requires
        0 <= w < words_of(lines).len(),
    ensures
        exists|k: int|
            #![trigger split_bytes(lines[k], COMMA)]
            0 <= k < lines.len() && two_fields(lines, k) && words_of(lines)[w] == split_bytes(
                lines[k],
                COMMA,
            )[0],
    decreases lines.len(),
{
    let d = lines.drop_last();
    let wd = words_of(d);
    let k = lines.len() - 1;
    assert(lines[k] == lines.last());
    if w < wd.len() {
        law_each_word_is_a_first_field(d, w);
        let j = choose|j: int|
            #![trigger split_bytes(d[j], COMMA)]
            0 <= j < d.len() && two_fields(d, j) && wd[w] == split_bytes(d[j], COMMA)[0];
        assert(d[j] == lines[j]);
        assert(words_of(lines)[w] == wd[w]);
        assert(two_fields(lines, j) && words_of(lines)[w] == split_bytes(lines[j], COMMA)[0]);
    } else {
        assert(two_fields(lines, k) && words_of(lines)[w] == split_bytes(lines[k], COMMA)[0]);
    }
}

/// The first field of every two-field line of the question file can be
/// drawn, whatever the line's second field says.
pub proof fn law_each_first_field_is_a_word(lines: Seq<Seq<u8>>, k: int)
    requires
        0 <= k < lines.len(),
        two_fields(lines, k),
    ensures
        words_of(lines).contains(split_bytes(lines[k], COMMA)[0]),
    decreases lines.len(),
{
    let d = lines.drop_last();
    let wd = words_of(d);
    let w = words_of(lines);
    if k < d.len() {
        assert(d[k] == lines[k]);
        law_each_first_field_is_a_word(d, k);
        let x = choose|x: int| 0 <= x < wd.len() && wd[x] == split_bytes(d[k], COMMA)[0];
        assert(w[x] == wd[x]);
    } else {
        assert(lines[k] == lines.last());
        assert(w[w.len() - 1] == split_bytes(lines[k], COMMA)[0]);
    }
}

/// Lines added to the question file never change the words before them.
pub proof fn law_words_keep_file_order(lines: Seq<Seq<u8>>, more: Seq<Seq<u8>>)
    ensures
        words_of(lines).len() <= words_of(lines + more).len(),
        words_of(lines + more).take(words_of(lines).len() as int) == words_of(lines),
    decreases more.len(),
{
    if more.len() == 0 {
        assert(lines + more =~= lines);
        assert(words_of(lines).take(words_of(lines).len() as int) =~= words_of(lines));
    } else {
        let m = more.drop_last();
        law_words_keep_file_order(lines, m);
        assert((lines + more).drop_last() =~= lines + m);
        let a = words_of(lines + m);
        let b = words_of(lines + more);
        assert(b.take(words_of(lines).len() as int) =~= a.take(words_of(lines).len() as int));
    }
}


/// Bytes free of the argument separators `&` and `=`.
pub open spec fn plain_value(v: Seq<u8>) -> bool {
    !v.contains(AMPERSAND) && !v.contains(EQUALS)
}

/// The first bytes of `path` as a prefix test.
proof fn lemma_not_prefix(path: Seq<u8>, prefix: Seq<u8>, k: int)
    requires
        0 <= k < prefix.len(),
        k < path.len(),
        path[k] != prefix[k],
    ensures
        !crate::bytes::has_prefix(path, prefix),
{
    if crate::bytes::has_prefix(path, prefix) {
        assert(path.take(prefix.len() as int)[k] == path[k]);
    }
}

proof fn lemma_route_texts()
    ensures
        text("./login") == seq![46u8, 47, 108, 111, 103, 105, 110],
        text("./login?") == seq![46u8, 47, 108, 111, 103, 105, 110, 63],
        text("./retrieve") == seq![46u8, 47, 114, 101, 116, 114, 105, 101, 118, 101],
        text("./retrieve?username=") == seq![
            46u8, 47, 114, 101, 116, 114, 105, 101, 118, 101, 63, 117, 115, 101, 114, 110, 97, 109,
            101, 61,
        ],
        text("./new_round") == seq![46u8, 47, 110, 101, 119, 95, 114, 111, 117, 110, 100],
        text("./get_ascii_art") == seq![
            46u8, 47, 103, 101, 116, 95, 97, 115, 99, 105, 105, 95, 97, 114, 116,
        ],
        text("./get_ascii_art?art=") == seq![
            46u8, 47, 103, 101, 116, 95, 97, 115, 99, 105, 105, 95, 97, 114, 116, 63, 97, 114, 116,
            61,
        ],
        text("./check_user") == seq![46u8, 47, 99, 104, 101, 99, 107, 95, 117, 115, 101, 114],
        text("./check_user?username=") == seq![
            46u8, 47, 99, 104, 101, 99, 107, 95, 117, 115, 101, 114, 63, 117, 115, 101, 114, 110,
            97, 109, 101, 61,
        ],
        text("username") == seq![117u8, 115, 101, 114, 110, 97, 109, 101],
        text("password") == seq![112u8, 97, 115, 115, 119, 111, 114, 100],
{
    reveal_strlit("./login");
    reveal_strlit("./login?");
    reveal_strlit("./retrieve");
    reveal_strlit("./retrieve?username=");
    reveal_strlit("./new_round");
    reveal_strlit("./get_ascii_art");
    reveal_strlit("./get_ascii_art?art=");
    reveal_strlit("./check_user");
    reveal_strlit("./check_user?username=");
    reveal_strlit("username");
    reveal_strlit("password");
    broadcast use vstd::string::group_string_axioms;

    assert(vstd::string::is_ascii("./login"));
    assert(vstd::string::is_ascii("./login?"));
    assert(vstd::string::is_ascii("./retrieve"));
    assert(vstd::string::is_ascii("./retrieve?username="));
    assert(vstd::string::is_ascii("./new_round"));
    assert(vstd::string::is_ascii("./get_ascii_art"));
    assert(vstd::string::is_ascii("./get_ascii_art?art="));
    assert(vstd::string::is_ascii("./check_user"));
    assert(vstd::string::is_ascii("./check_user?username="));
    assert(vstd::string::is_ascii("username"));
    assert(vstd::string::is_ascii("password"));
    assert(text("./login") =~= seq![46u8, 47, 108, 111, 103, 105, 110]);
    assert(text("./login?") =~= seq![46u8, 47, 108, 111, 103, 105, 110, 63]);
    assert(text("./retrieve") =~= seq![46u8, 47, 114, 101, 116, 114, 105, 101, 118, 101]);
    assert(text("./retrieve?username=") =~= seq![
        46u8, 47, 114, 101, 116, 114, 105, 101, 118, 101, 63, 117, 115, 101, 114, 110, 97, 109,
        101, 61,
    ]);
    assert(text("./new_round") =~= seq![46u8, 47, 110, 101, 119, 95, 114, 111, 117, 110, 100]);
    assert(text("./get_ascii_art") =~= seq![
        46u8, 47, 103, 101, 116, 95, 97, 115, 99, 105, 105, 95, 97, 114, 116,
    ]);
    assert(text("./get_ascii_art?art=") =~= seq![
        46u8, 47, 103, 101, 116, 95, 97, 115, 99, 105, 105, 95, 97, 114, 116, 63, 97, 114, 116,
        61,
    ]);
    assert(text("./check_user") =~= seq![46u8, 47, 99, 104, 101, 99, 107, 95, 117, 115, 101, 114]);
    assert(text("./check_user?username=") =~= seq![
        46u8, 47, 99, 104, 101, 99, 107, 95, 117, 115, 101, 114, 63, 117, 115, 101, 114, 110,
        97, 109, 101, 61,
    ]);
    assert(text("username") =~= seq![117u8, 115, 101, 114, 110, 97, 109, 101]);
    assert(text("password") =~= seq![112u8, 97, 115, 115, 119, 111, 114, 100]);
}

/// A retrieval path names the user after `./retrieve?username=`, whatever bytes
/// the name holds.
pub proof fn law_retrieve_route(username: Seq<u8>)
    ensures
        route_of(text("./retrieve?username=") + username) == (RouteView::Retrieve { username }),
{
    lemma_route_texts();
    let path = text("./retrieve?username=") + username;
    lemma_not_prefix(path, text("./login"), 2);
    assert(path.take(10) =~= text("./retrieve"));
    assert(path.skip(20) =~= username);
}

/// An ASCII-art path names the word after `./get_ascii_art?art=`.
pub proof fn law_ascii_art_route(word: Seq<u8>)
    ensures
        route_of(text("./get_ascii_art?art=") + word) == (RouteView::AsciiArt { word }),
{
    lemma_route_texts();
    let path = text("./get_ascii_art?art=") + word;
    lemma_not_prefix(path, text("./login"), 2);
    lemma_not_prefix(path, text("./retrieve"), 2);
    lemma_not_prefix(path, text("./new_round"), 2);
    assert(path.take(15) =~= text("./get_ascii_art"));
    assert(path.skip(20) =~= word);
}

/// A user check names the user after `./check_user?username=`.
pub proof fn law_check_user_route(username: Seq<u8>)
    ensures
        route_of(text("./check_user?username=") + username) == (RouteView::CheckUser { username }),
{
    lemma_route_texts();
    let path = text("./check_user?username=") + username;
    lemma_not_prefix(path, text("./login"), 2);
    lemma_not_prefix(path, text("./retrieve"), 2);
    lemma_not_prefix(path, text("./new_round"), 2);
    lemma_not_prefix(path, text("./get_ascii_art"), 2);
    assert(path.take(12) =~= text("./check_user"));
    assert(path.skip(22) =~= username);
}

/// `name=value` as bytes.
pub open spec fn argument(name: Seq<u8>, value: Seq<u8>) -> Seq<u8> {
    name.push(EQUALS) + value
}

proof fn lemma_argument_plain(name: Seq<u8>, value: Seq<u8>)
    requires
        plain_value(name),
        plain_value(value),
    ensures
        !argument(name, value).contains(AMPERSAND),
        split_bytes(argument(name, value), EQUALS) == seq![name, value],
{
    lemma_split_pair(name, value, EQUALS);
    let a = argument(name, value);
    if a.contains(AMPERSAND) {
        let k = choose|k: int| 0 <= k < a.len() && a[k] == AMPERSAND;
        if k < name.len() {
            assert(name[k] == AMPERSAND);
        } else if k > name.len() {
            assert(value[k - name.len() - 1] == AMPERSAND);
        }
    }
}

/// A login path `./login?username=U&password=P` logs in user `U` with
/// password `P`, for any `U` and `P` free of `&` and `=`.
pub proof fn law_login_route(username: Seq<u8>, password: Seq<u8>)
    requires
        plain_value(username),
        plain_value(password),
    ensures
        route_of(
            text("./login?") + argument(text("username"), username).push(AMPERSAND) + argument(
                text("password"),
                password,
            ),
        ) == (RouteView::Login { username, password }),
{
    lemma_route_texts();
    let a = argument(text("username"), username);
    let b = argument(text("password"), password);
    let path = text("./login?") + a.push(AMPERSAND) + b;
    assert(plain_value(text("username"))) by {
        assert(!text("username").contains(AMPERSAND));
        assert(!text("username").contains(EQUALS));
    }
    assert(plain_value(text("password"))) by {
        assert(!text("password").contains(AMPERSAND));
        assert(!text("password").contains(EQUALS));
    }
    lemma_argument_plain(text("username"), username);
    lemma_argument_plain(text("password"), password);
    assert(path.take(7) =~= text("./login"));
    assert(path.skip(8) =~= a.push(AMPERSAND) + b);
    lemma_split_pair(a, b, AMPERSAND);
    let args = seq![a, b];
    assert(args.drop_last() =~= seq![a]);
    assert(seq![a].drop_last() =~= Seq::<Seq<u8>>::empty());
    assert(text("password") != text("username")) by {
        assert(text("password")[0] != text("username")[0]);
    }
    assert(args.last() == b);
    assert(seq![a].last() == a);
    assert(query_value(seq![a], text("username")) == username);
    assert(query_value(args, text("username")) == query_value(seq![a], text("username")));
    assert(query_value(args, text("username")) == username);
    assert(query_value(args, text("password")) == password);
}

/// Line `i` of the question file says whether `word` has ASCII art: it has
/// exactly two fields, the first being `word` and the second `true` or `false`.
pub open spec fn flags_word(lines: Seq<Seq<u8>>, i: int, word: Seq<u8>) -> bool {
    &&& split_bytes(lines[i], COMMA).len() == 2
    &&& split_bytes(lines[i], COMMA)[0] == word
    &&& (split_bytes(lines[i], COMMA)[1] == text("true") || split_bytes(lines[i], COMMA)[1]
        == text("false"))
}

/// Whether a word has ASCII art is what the last line that says so for it
/// says: `true` gives art, `false` gives none.
pub proof fn law_last_question_line_sets_art(lines: Seq<Seq<u8>>, i: int, word: Seq<u8>)
    requires
        0 <= i < lines.len(),
        flags_word(lines, i, word),
        forall|j: int| i < j < lines.len() ==> !flags_word(lines, j, word),
    ensures
        crate::server::art_flags_of(lines).contains_key(word),
        crate::server::art_flags_of(lines)[word] == (split_bytes(lines[i], COMMA)[1] == text(
            "true",
        )),
    decreases lines.len(),
{
    reveal_strlit("true");
    reveal_strlit("false");
    broadcast use vstd::string::group_string_axioms;

    assert(vstd::string::is_ascii("true"));
    assert(vstd::string::is_ascii("false"));
    assert(text("true") != text("false")) by {
        assert(text("true").len() != text("false").len());
    }
    if i < lines.len() - 1 {
        let d = lines.drop_last();
        assert forall|j: int| i < j < d.len() implies !flags_word(d, j, word) by {
            assert(d[j] == lines[j]);
            assert(!flags_word(lines, j, word));
        }
        assert(d[i] == lines[i]);
        law_last_question_line_sets_art(d, i, word);
        assert(!flags_word(lines, lines.len() - 1, word));
    }
}


/// The value of a named argument is the one its last occurrence gives.
pub proof fn law_query_last_occurrence(args: Seq<Seq<u8>>, key: Seq<u8>, i: int)
    requires
        0 <= i < args.len(),
        split_bytes(args[i], EQUALS).len() >= 2,
        split_bytes(args[i], EQUALS)[0] == key,
        forall|j: int| i < j < args.len() ==> split_bytes(args[j], EQUALS)[0] != key,
    ensures
        query_value(args, key) == split_bytes(args[i], EQUALS)[1],
    decreases args.len(),
{
    if i < args.len() - 1 {
        let d = args.drop_last();
        assert forall|j: int| i < j < d.len() implies split_bytes(d[j], EQUALS)[0] != key by {
            assert(d[j] == args[j]);
        }
        assert(d[i] == args[i]);
        law_query_last_occurrence(d, key, i);
        assert(args[args.len() - 1] == args.last());
    }
}

/// An argument that does not occur has the empty value.
pub proof fn law_query_absent(args: Seq<Seq<u8>>, key: Seq<u8>)
    requires
        forall|j: int| 0 <= j < args.len() ==> split_bytes(args[j], EQUALS)[0] != key,
    ensures
        query_value(args, key) == Seq::<u8>::empty(),
    decreases args.len(),
{
    if args.len() > 0 {
        let d = args.drop_last();
        assert forall|j: int| 0 <= j < d.len() implies split_bytes(d[j], EQUALS)[0] != key by {
            assert(d[j] == args[j]);
        }
        law_query_absent(d, key);
        assert(args[args.len() - 1] == args.last());
    }
}

proof fn lemma_upload_texts()
    ensures
        text("./upload_question") == seq![
            46u8, 47, 117, 112, 108, 111, 97, 100, 95, 113, 117, 101, 115, 116, 105, 111, 110,
        ],
        text("./upload_question?") == seq![
            46u8, 47, 117, 112, 108, 111, 97, 100, 95, 113, 117, 101, 115, 116, 105, 111, 110, 63,
        ],
        text("recipient") == seq![114u8, 101, 99, 105, 112, 105, 101, 110, 116],
        text("sender") == seq![115u8, 101, 110, 100, 101, 114],
        text("ascii_option") == seq![97u8, 115, 99, 105, 105, 95, 111, 112, 116, 105, 111, 110],
        text("content") == seq![99u8, 111, 110, 116, 101, 110, 116],
        text("word") == seq![119u8, 111, 114, 100],
{
    reveal_strlit("./upload_question");
    reveal_strlit("./upload_question?");
    reveal_strlit("recipient");
    reveal_strlit("sender");
    reveal_strlit("ascii_option");
    reveal_strlit("content");
    reveal_strlit("word");
    broadcast use vstd::string::group_string_axioms;

    assert(vstd::string::is_ascii("./upload_question"));
    assert(vstd::string::is_ascii("./upload_question?"));
    assert(vstd::string::is_ascii("recipient"));
    assert(vstd::string::is_ascii("sender"));
    assert(vstd::string::is_ascii("ascii_option"));
    assert(vstd::string::is_ascii("content"));
    assert(vstd::string::is_ascii("word"));
    assert(text("./upload_question") =~= seq![
        46u8, 47, 117, 112, 108, 111, 97, 100, 95, 113, 117, 101, 115, 116, 105, 111, 110,
    ]);
    assert(text("./upload_question?") =~= seq![
        46u8, 47, 117, 112, 108, 111, 97, 100, 95, 113, 117, 101, 115, 116, 105, 111, 110, 63,
    ]);
    assert(text("recipient") =~= seq![114u8, 101, 99, 105, 112, 105, 101, 110, 116]);
    assert(text("sender") =~= seq![115u8, 101, 110, 100, 101, 114]);
    assert(text("ascii_option") =~= seq![97u8, 115, 99, 105, 105, 95, 111, 112, 116, 105, 111, 110]);
    assert(text("content") =~= seq![99u8, 111, 110, 116, 101, 110, 116]);
    assert(text("word") =~= seq![119u8, 111, 114, 100]);
}

/// The arguments of an upload, in their usual order.
pub open spec fn upload_arguments(
    recipient: Seq<u8>,
    sender: Seq<u8>,
    ascii_option: Seq<u8>,
    content: Seq<u8>,
    key_word: Seq<u8>,
) -> Seq<Seq<u8>> {
    seq![
        argument(text("recipient"), recipient),
        argument(text("sender"), sender),
        argument(text("ascii_option"), ascii_option),
        argument(text("content"), content),
        argument(text("word"), key_word),
    ]
}

proof fn lemma_named_values(args: Seq<Seq<u8>>, names: Seq<Seq<u8>>, values: Seq<Seq<u8>>)
    requires
        args.len() == names.len(),
        args.len() == values.len(),
        forall|i: int, j: int|
            0 <= i < names.len() && 0 <= j < names.len() && i != j ==> names[i] != names[j],
        forall|i: int|
            0 <= i < args.len() ==> split_bytes(#[trigger] args[i], EQUALS) == seq![
                names[i],
                values[i],
            ],
    ensures
        forall|i: int| 0 <= i < args.len() ==> query_value(args, #[trigger] names[i]) == values[i],
{
    assert forall|i: int| 0 <= i < args.len() implies query_value(args, #[trigger] names[i])
        == values[i] by {
        assert(split_bytes(args[i], EQUALS) == seq![names[i], values[i]]);
        assert forall|j: int| i < j < args.len() implies split_bytes(args[j], EQUALS)[0]
            != names[i] by {
            assert(split_bytes(args[j], EQUALS) == seq![names[j], values[j]]);
        }
        law_query_last_occurrence(args, names[i], i);
    }
}

proof fn lemma_upload_args(
    recipient: Seq<u8>,
    sender: Seq<u8>,
    ascii_option: Seq<u8>,
    content: Seq<u8>,
    key_word: Seq<u8>,
)
    requires
        plain_value(recipient),
        plain_value(sender),
        plain_value(ascii_option),
        plain_value(content),
        plain_value(key_word),
    ensures
        ({
            let args = upload_arguments(recipient, sender, ascii_option, content, key_word);
            &&& split_bytes(join_bytes(args, AMPERSAND), AMPERSAND) == args
            &&& query_value(args, text("recipient")) == recipient
            &&& query_value(args, text("sender")) == sender
            &&& query_value(args, text("ascii_option")) == ascii_option
            &&& query_value(args, text("content")) == content
            &&& query_value(args, text("word")) == key_word
        }),
{
    lemma_upload_texts();
    let args = upload_arguments(recipient, sender, ascii_option, content, key_word);
    let names = seq![
        text("recipient"),
        text("sender"),
        text("ascii_option"),
        text("content"),
        text("word"),
    ];
    let values = seq![recipient, sender, ascii_option, content, key_word];
    assert forall|i: int| 0 <= i < 5 implies plain_value(#[trigger] names[i]) by {
        assert(!names[i].contains(AMPERSAND));
        assert(!names[i].contains(EQUALS));
    }
    assert forall|i: int| 0 <= i < 5 implies !(#[trigger] args[i]).contains(AMPERSAND)
        && split_bytes(args[i], EQUALS) == seq![names[i], values[i]] by {
        lemma_argument_plain(names[i], values[i]);
    }
    lemma_split_of_join(args, AMPERSAND);
    assert forall|i: int, j: int| 0 <= i < 5 && 0 <= j < 5 && i != j implies names[i]
        != names[j] by {
        if names[i] == names[j] {
            assert(names[i].len() == names[j].len());
            assert(names[i][0] == names[j][0]);
        }
    }
    lemma_named_values(args, names, values);
    assert(names[0] == text("recipient"));
    assert(query_value(args, names[0]) == values[0]);
    assert(query_value(args, names[1]) == values[1]);
    assert(query_value(args, names[2]) == values[2]);
    assert(query_value(args, names[3]) == values[3]);
    assert(query_value(args, names[4]) == values[4]);
}

/// An upload path carries the recipient, sender, ASCII option, drawing and
/// word given by its `recipient`, `sender`, `ascii_option`, `content` and
/// `word` arguments, for any values free of `&` and `=`.
pub proof fn law_upload_route(
    recipient: Seq<u8>,
    sender: Seq<u8>,
    ascii_option: Seq<u8>,
    content: Seq<u8>,
    key_word: Seq<u8>,
)
    requires
        plain_value(recipient),
        plain_value(sender),
        plain_value(ascii_option),
        plain_value(content),
        plain_value(key_word),
    ensures
        route_of(
            text("./upload_question?") + join_bytes(
                upload_arguments(recipient, sender, ascii_option, content, key_word),
                AMPERSAND,
            ),
        ) == (RouteView::Upload { recipient, sender, ascii_option, content, key_word }),
{
    lemma_route_texts();
    lemma_upload_texts();
    lemma_upload_args(recipient, sender, ascii_option, content, key_word);
    let args = upload_arguments(recipient, sender, ascii_option, content, key_word);
    let path = text("./upload_question?") + join_bytes(args, AMPERSAND);
    lemma_not_prefix(path, text("./login"), 2);
    lemma_not_prefix(path, text("./retrieve"), 2);
    lemma_not_prefix(path, text("./new_round"), 2);
    lemma_not_prefix(path, text("./get_ascii_art"), 2);
    lemma_not_prefix(path, text("./check_user"), 2);
    assert(path.take(17) =~= text("./upload_question"));
    assert(path.skip(18) =~= join_bytes(args, AMPERSAND));
}

/// Any path under `./new_round` starts a new round.
pub proof fn law_new_round_route(rest: Seq<u8>)
    ensures
        route_of(text("./new_round") + rest) == RouteView::NewRound,
{
    lemma_route_texts();
    let path = text("./new_round") + rest;
    lemma_not_prefix(path, text("./login"), 2);
    lemma_not_prefix(path, text("./retrieve"), 2);
    assert(path.take(11) =~= text("./new_round"));
}

/// A path under none of the handlers' prefixes names a static file, itself.
pub proof fn law_other_paths_are_static(path: Seq<u8>)
    requires
        !crate::bytes::has_prefix(path, text("./login")),
        !crate::bytes::has_prefix(path, text("./retrieve")),
        !crate::bytes::has_prefix(path, text("./new_round")),
        !crate::bytes::has_prefix(path, text("./get_ascii_art")),
        !crate::bytes::has_prefix(path, text("./check_user")),
        !crate::bytes::has_prefix(path, text("./upload_question")),
    ensures
        route_of(path) == (RouteView::Static { path }),
{
}

/// A retrieval replies with the `200 OK` head followed by everything the
/// user's file held, and with the `404` refusal where there was no file; a
/// new round replies with the `200 OK` head followed by the drawn word.
pub proof fn law_reply_shapes<S>(server: WebServer<S>, held: Seq<u8>, index: int)
    requires
        0 <= index < server.words().len(),
    ensures
        retrieve_reply(Some(held)) == text(
            "HTTP/1.1 200 OK\r\nContent-Type: text/html; charset=UTF-8\r\n\r\n",
        ) + held,
        retrieve_reply(None) == text("HTTP/1.1 404 Not Found\r\n\r\n"),
        ok_reply(server.words()[index]) == text(
            "HTTP/1.1 200 OK\r\nContent-Type: text/html; charset=UTF-8\r\n\r\n",
        ) + server.words()[index],
{
}

/// The name of an IPv4 peer is its four numbers in decimal, separated by
/// `.`, then `:` and the port in decimal.
pub proof fn law_ipv4_peer_name(octets: [u8; 4], port: u16)
    ensures
        peer_name_of(Some(crate::peer::PeerAddr::V4 { octets, port })) == crate::text::decimal(
            octets[0] as nat,
        ) + seq![46u8] + crate::text::decimal(octets[1] as nat) + seq![46u8]
            + crate::text::decimal(octets[2] as nat) + seq![46u8] + crate::text::decimal(
            octets[3] as nat,
        ) + seq![58u8] + crate::text::decimal(port as nat),
{
    reveal_strlit(":");
    broadcast use vstd::string::group_string_axioms;

    assert(vstd::string::is_ascii(":"));
    assert(text(":") =~= seq![58u8]);
    let parts = crate::peer::decimals(octets@);
    assert(parts.take(1) =~= seq![parts[0]]);
    assert(parts.take(2).drop_last() =~= parts.take(1));
    assert(parts.take(3).drop_last() =~= parts.take(2));
    assert(parts.drop_last() =~= parts.take(3));
    assert(join_bytes(parts.take(1), 46u8) == parts[0]);
    assert(join_bytes(parts.take(2), 46u8) == join_bytes(parts.take(1), 46u8).push(46u8)
        + parts[1]);
    assert(join_bytes(parts.take(3), 46u8) == join_bytes(parts.take(2), 46u8).push(46u8)
        + parts[2]);
    assert(join_bytes(parts, 46u8) == join_bytes(parts.take(3), 46u8).push(46u8) + parts[3]);
    assert(peer_name_of(Some(crate::peer::PeerAddr::V4 { octets, port })) =~= crate::text::decimal(
        octets[0] as nat,
    ) + seq![46u8] + crate::text::decimal(octets[1] as nat) + seq![46u8]
        + crate::text::decimal(octets[2] as nat) + seq![46u8] + crate::text::decimal(
        octets[3] as nat,
    ) + seq![58u8] + crate::text::decimal(port as nat));
}

/// A number read back from its decimal numeral is that number, and only
/// nonempty runs of the digits `0`-`9` are read as numbers.
pub proof fn law_numbers_read_back(n: usize, s: Seq<u8>)
    ensures
        crate::args::number_of(crate::text::decimal(n as nat)) == Some(n),
        crate::args::number_of(s) is Some ==> s.len() > 0 && forall|i: int|
            0 <= i < s.len() ==> 48 <= #[trigger] s[i] <= 57,
{
    crate::text::lemma_digits_value(n as nat, 10);
    let d = crate::text::decimal(n as nat);
    assert forall|i: int| 0 <= i < d.len() implies crate::args::is_digit(#[trigger] d[i]) by {
        assert(crate::text::is_digit_char(crate::text::digits(n as nat, 10)[i]));
        if d[i] > 57 {
            assert(crate::text::digits(n as nat, 10)[i] >= 97);
            crate::text::lemma_digits_below_radix(n as nat, 10, i);
        }
    }
}

/// Without `-h` or `--help`, the server runs on the address given (else
/// `127.0.0.1`) and the port given (else 4414); with either, it prints its
/// usage.
pub proof fn law_command_line_choices(
    program: Seq<char>,
    ip: Option<Seq<char>>,
    port: Option<Seq<char>>,
)
    ensures
        crate::args::selected(program, true, ip, port) == (crate::args::ArgsView::Usage {
            program,
        }),
        crate::args::selected(program, false, ip, None) == (crate::args::ArgsView::Run {
            ip: match ip {
                Some(i) => i,
                None => "127.0.0.1"@,
            },
            port: 4414,
        }),
{
}

/// A retrieval whose path stops before the user name would start fails; one
/// whose name starts at a character does not.
pub proof fn law_retrieve_route_fails(username: Seq<u8>, short: Seq<u8>)
    ensures
        crate::bytes::has_prefix(short, text("./retrieve")) && short.len() < 20
            ==> crate::routing::route_fails(short),
        username.len() == 0 || !(0x80 <= username[0] <= 0xbf) ==> !crate::routing::route_fails(
            text("./retrieve?username=") + username,
        ),
{
    lemma_route_texts();
    if crate::bytes::has_prefix(short, text("./retrieve")) && short.len() < 20 {
        lemma_not_prefix(short, text("./login"), 2);
        assert(short[2] == text("./retrieve")[2]) by {
            assert(short.take(10)[2] == short[2]);
        }
    }
    let path = text("./retrieve?username=") + username;
    lemma_not_prefix(path, text("./login"), 2);
    assert(path.take(10) =~= text("./retrieve"));
    if username.len() > 0 {
        assert(path[20] == username[0]);
    }
}

} // verus!
