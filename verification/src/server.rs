//! The session step: what the server does with the outcome of one read.
//!
//! A step answers a command from the store and says whether the session goes
//! on. It reads or writes nothing itself: the answers are queued in the
//! `Client`, and the caller brings the store under the access that the step
//! needs.

use crate::client::{frame, Client, ClientError, ClientErrorView, ClientView, SessionState};
use crate::client::{outcome_view, received, FAREWELL};
use crate::commands::{parse, Command, CommandView};
use crate::database::{after_put, distinct_keys, got, keys_of, lemma_distinct_puts, put_answer};
use crate::database::{replay, text_of, DBError, Database};
use crate::text::{decimal, push_decimal};
use vstd::prelude::*;
use vstd::utf8::{decode_utf8, valid_utf8};

verus! {

/// The line that answers what is no command.
pub const INVALID: &'static str = "Invalid command";

/// The line that answers `GET` for a key without a value.
pub const NO_DATA: &'static str = "No data !";

/// The name of a store error, as it is shown to the client.
pub open spec fn error_name(e: DBError) -> Seq<char> {
    match e {
        DBError::Locked => "Locked"@,
        DBError::NoData => "NoData"@,
        DBError::Exists => "Exists"@,
    }
}

/// The line that reports a store error.
pub open spec fn error_line(e: DBError) -> Seq<char> {
    "Db Error: "@ + error_name(e)
}

/// The line that shows one key of a listing.
pub open spec fn key_line(key: Seq<char>) -> Seq<char> {
    "> "@ + key
}

/// The lines that answer `LIST`: the number of keys, then one line for each
/// key; or the error.
pub open spec fn list_lines(r: Result<Seq<Seq<char>>, DBError>) -> Seq<Seq<char>> {
    match r {
        Ok(keys) => seq![decimal(keys.len()) + " keys."@] + Seq::new(
            keys.len(),
            |i: int| key_line(keys[i]),
        ),
        Err(e) => seq![error_line(e)],
    }
}

/// The line that answers `GET`.
pub open spec fn get_line(r: Result<Seq<char>, DBError>) -> Seq<char> {
    match r {
        Ok(value) => "Last value = "@ + value,
        Err(DBError::NoData) => NO_DATA@,
        Err(e) => error_line(e),
    }
}

/// The line that answers `PUT`.
pub open spec fn put_line(r: Result<Seq<char>, DBError>) -> Seq<char> {
    match r {
        Ok(key) => "Stored "@ + key,
        Err(e) => error_line(e),
    }
}

/// The keys of a listing as character sequences.
pub open spec fn keys_view(r: Result<Vec<String>, DBError>) -> Result<Seq<Seq<char>>, DBError> {
    match r {
        Ok(keys) => Ok(keys.deep_view()),
        Err(e) => Err(e),
    }
}

/// The count line of a listing gives the number of key lines that follow it.
pub proof fn lemma_list_count(keys: Seq<Seq<char>>)
    ensures
        list_lines(Ok(keys)).len() == 1 + keys.len(),
        list_lines(Ok(keys))[0] == decimal(keys.len()) + " keys."@,
        forall|i: int| 0 <= i < keys.len() ==> #[trigger] list_lines(Ok(keys))[1 + i] == key_line(keys[i]),
{
}

/// Formats a store error for the client.
pub fn error_reply(e: DBError) -> (line: String)
    ensures
        line@ == error_line(e),
{
    let mut line = "Db Error: ".to_owned();
    match e {
        DBError::Locked => line.append("Locked"),
        DBError::NoData => line.append("NoData"),
        DBError::Exists => line.append("Exists"),
    }
    line
}

/// Formats the answer to `LIST` from what the store returned.
pub fn list_reply(r: Result<Vec<String>, DBError>) -> (lines: Vec<String>)
    ensures
        lines.deep_view() == list_lines(keys_view(r)),
{
    let mut lines: Vec<String> = Vec::new();
    match r {
        Ok(keys) => {
            let mut count = String::new();
            push_decimal(&mut count, keys.len());
            count.append(" keys.");
            lines.push(count);
            let mut i: usize = 0;
            while i < keys.len()
                invariant
                    i <= keys@.len(),
                    lines@.len() == 1 + i,
                    lines@[0]@ == decimal(keys@.len()) + " keys."@,
                    forall|j: int| 0 <= j < i ==> (#[trigger] lines@[1 + j])@ == key_line(keys@[j]@),
                decreases keys@.len() - i,
            {
                let mut line = "> ".to_owned();
                line.append(keys[i].as_str());
                lines.push(line);
                i = i + 1;
            }
            proof {
                let expected = list_lines(Ok(keys.deep_view()));
                assert(keys.deep_view().len() == keys@.len());
                assert(lines.deep_view().len() == expected.len());
                assert forall|k: int| 0 <= k < expected.len() implies lines.deep_view()[k]
                    == expected[k] by {
                    assert(lines.deep_view()[k] == lines@[k]@);
                    if k > 0 {
                        assert(lines@[1 + (k - 1)]@ == key_line(keys@[k - 1]@));
                        assert(keys.deep_view()[k - 1] == keys@[k - 1]@);
                    }
                }
                assert(lines.deep_view() =~= expected);
            }
        },
        Err(e) => {
            lines.push(error_reply(e));
            assert(lines.deep_view() =~= list_lines(Err(e)));
        },
    }
    lines
}

/// Formats the answer to `GET` from what the store returned.
pub fn get_reply(r: Result<String, DBError>) -> (line: String)
    ensures
        line@ == get_line(text_of(r)),
{
    match r {
        Ok(value) => {
            let mut line = "Last value = ".to_owned();
            line.append(value.as_str());
            line
        },
        Err(DBError::NoData) => NO_DATA.to_owned(),
        Err(e) => error_reply(e),
    }
}

/// Formats the answer to `PUT` from what the store returned.
pub fn put_reply(r: Result<String, DBError>) -> (line: String)
    ensures
        line@ == put_line(text_of(r)),
{
    match r {
        Ok(key) => {
            let mut line = "Stored ".to_owned();
            line.append(key.as_str());
            line
        },
        Err(e) => error_reply(e),
    }
}

/// The access to the store that a step needs.
#[derive(Debug, Clone, Copy, PartialEq, Eq, Structural)]
pub enum Access {
    /// The step does not touch the store.
    Detached,
    /// The step reads the store; other readers may go on.
    Shared,
    /// The step writes the store; nobody else may read or write meanwhile.
    Exclusive,
}

/// The access that the step for `outcome` needs: `PUT` checks and inserts in
/// one go and so needs the store for itself, `LIST` and `GET` only read.
pub open spec fn access_of(outcome: Result<CommandView, ClientErrorView>) -> Access {
    match outcome {
        Ok(CommandView::Put(_, _)) => Access::Exclusive,
        Ok(CommandView::List) => Access::Shared,
        Ok(CommandView::Get(_)) => Access::Shared,
        _ => Access::Detached,
    }
}

/// Whether the step for `outcome` ends the session: after `QUIT`, when the
/// peer is gone, when a read fails and when the input cannot be decoded.
pub open spec fn ends_session(outcome: Result<CommandView, ClientErrorView>) -> bool {
    match outcome {
        Ok(CommandView::Quit) => true,
        Err(ClientErrorView::InvalidCommand(_)) => false,
        Err(_) => true,
        _ => false,
    }
}

/// The lines that answer `outcome`, unframed. `store` holds the entries of
/// the store, or nothing where the store could not be reached.
pub open spec fn replies(
    store: Option<Seq<(Seq<char>, Seq<char>)>>,
    outcome: Result<CommandView, ClientErrorView>,
) -> Seq<Seq<char>> {
    match outcome {
        Ok(CommandView::List) => list_lines(
            match store {
                Some(entries) => Ok(keys_of(entries)),
                None => Err(DBError::Locked),
            },
        ),
        Ok(CommandView::Get(key)) => seq![
            get_line(
                match store {
                    Some(entries) => got(entries, key),
                    None => Err(DBError::Locked),
                },
            ),
        ],
        Ok(CommandView::Put(key, _)) => seq![
            put_line(
                match store {
                    Some(entries) => put_answer(entries, key),
                    None => Err(DBError::Locked),
                },
            ),
        ],
        Ok(CommandView::Quit) => seq![FAREWELL@],
        Err(ClientErrorView::InvalidCommand(_)) => seq![INVALID@],
        Err(_) => Seq::empty(),
    }
}

/// The session after the step for `outcome`. A closed session stays as it
/// is. Any other gets the framed answers at the end of its queue, and is
/// closed where the outcome ends the session.
pub open spec fn served(
    client: ClientView,
    store: Option<Seq<(Seq<char>, Seq<char>)>>,
    outcome: Result<CommandView, ClientErrorView>,
) -> ClientView {
    if client.state is Closed {
        client
    } else {
        ClientView {
            outbox: client.outbox + replies(store, outcome).map_values(|line: Seq<char>| frame(line)),
            state: if ends_session(outcome) {
                SessionState::Closed
            } else {
                client.state
            },
        }
    }
}

/// The entries of the store after the step for `outcome`: only a `PUT` in an
/// open session changes them.
pub open spec fn stored(
    client: ClientView,
    entries: Seq<(Seq<char>, Seq<char>)>,
    outcome: Result<CommandView, ClientErrorView>,
) -> Seq<(Seq<char>, Seq<char>)> {
    match outcome {
        Ok(CommandView::Put(key, value)) if !(client.state is Closed) => after_put(
            entries,
            key,
            value,
        ),
        _ => entries,
    }
}

/// A step that needs no access to the store answers the same whether the
/// store can be reached or not, and leaves the store as it is.
pub proof fn lemma_detached_ignores_store(
    client: ClientView,
    entries: Seq<(Seq<char>, Seq<char>)>,
    outcome: Result<CommandView, ClientErrorView>,
)
    requires
        access_of(outcome) == Access::Detached,
    ensures
        served(client, Some(entries), outcome) == served(client, None, outcome),
        stored(client, entries, outcome) == entries,
{
}

/// A step that only reads the store leaves it as it is.
pub proof fn lemma_shared_keeps_store(
    client: ClientView,
    entries: Seq<(Seq<char>, Seq<char>)>,
    outcome: Result<CommandView, ClientErrorView>,
)
    requires
        access_of(outcome) != Access::Exclusive,
    ensures
        stored(client, entries, outcome) == entries,
{
}

/// `QUIT` in an open session is answered with the farewell line and closes
/// the session; the store is not touched. Nothing that comes after it is
/// served: a closed session queues no further answer and changes no entry.
pub proof fn lemma_quit_is_final(
    client: ClientView,
    store: Option<Seq<(Seq<char>, Seq<char>)>>,
    entries: Seq<(Seq<char>, Seq<char>)>,
    later_store: Option<Seq<(Seq<char>, Seq<char>)>>,
    later: Result<CommandView, ClientErrorView>,
)
    requires
        !(client.state is Closed),
    ensures
        ({
            let quit = Ok::<CommandView, ClientErrorView>(CommandView::Quit);
            let after = served(client, store, quit);
            &&& after.outbox == client.outbox.push(frame(FAREWELL@))
            &&& after.state is Closed
            &&& stored(client, entries, quit) == entries
            &&& served(after, later_store, later) == after
            &&& stored(after, entries, later) == entries
        }),
{
    let quit = Ok::<CommandView, ClientErrorView>(CommandView::Quit);
    assert(served(client, store, quit).outbox =~= client.outbox.push(frame(FAREWELL@)));
}

/// Input that decodes to a line which no rule of the grammar matches is
/// answered with the invalid-command line. The session stays open in the
/// state it was in, and the store is not touched.
pub proof fn lemma_invalid_line_keeps_session(
    client: ClientView,
    store: Option<Seq<(Seq<char>, Seq<char>)>>,
    entries: Seq<(Seq<char>, Seq<char>)>,
    bytes: Seq<u8>,
)
    requires
        !(client.state is Closed),
        bytes.len() > 0,
        valid_utf8(bytes),
        parse(decode_utf8(bytes)) is None,
    ensures
        ({
            let after = served(client, store, received(bytes));
            &&& after.outbox == client.outbox.push(frame(INVALID@))
            &&& after.state == client.state
            &&& stored(client, entries, received(bytes)) == entries
        }),
{
    assert(served(client, store, received(bytes)).outbox =~= client.outbox.push(frame(INVALID@)));
}

/// A session is ended by `QUIT`, by the end of the input, by a failed read
/// and by input that cannot be decoded, and by nothing else. Every command is
/// answered with at least one line, whether the store can be reached or not.
pub proof fn lemma_session_ends(
    store: Option<Seq<(Seq<char>, Seq<char>)>>,
    outcome: Result<CommandView, ClientErrorView>,
)
    ensures
        ends_session(outcome) <==> outcome == Ok::<CommandView, ClientErrorView>(CommandView::Quit)
            || outcome == Err::<CommandView, ClientErrorView>(ClientErrorView::NoInput)
            || outcome == Err::<CommandView, ClientErrorView>(ClientErrorView::DecodingFailed)
            || outcome matches Err(ClientErrorView::ReadFailure(_)),
        outcome is Ok ==> replies(store, outcome).len() >= 1,
{
}

/// A closed session is never served again: no answer is queued for it and no
/// entry is stored on its behalf.
pub proof fn lemma_closed_is_terminal(
    client: ClientView,
    store: Option<Seq<(Seq<char>, Seq<char>)>>,
    entries: Seq<(Seq<char>, Seq<char>)>,
    outcome: Result<CommandView, ClientErrorView>,
)
    requires
        client.state is Closed,
    ensures
        served(client, store, outcome) == client,
        stored(client, entries, outcome) == entries,
{
}

/// After `put` calls with distinct keys on an empty store, `LIST` is
/// answered with the number of the calls and then one line for each key that
/// was put, and with nothing else.
pub proof fn lemma_listing_after_puts(puts: Seq<(Seq<char>, Seq<char>)>)
    requires
        distinct_keys(puts),
    ensures
        ({
            let list = Ok::<CommandView, ClientErrorView>(CommandView::List);
            let answer = replies(Some(replay(puts)), list);
            &&& answer.len() == 1 + puts.len()
            &&& answer[0] == decimal(puts.len()) + " keys."@
            &&& forall|i: int| 0 <= i < puts.len() ==> #[trigger] answer[1 + i] == key_line(puts[i].0)
        }),
{
    lemma_distinct_puts(puts);
    lemma_list_count(keys_of(puts));
}

/// Tells which access to the store the step for `outcome` needs.
pub fn access(outcome: &Result<Command, ClientError>) -> (a: Access)
    ensures
        a == access_of(outcome_view(*outcome)),
{
    match outcome {
        Ok(Command::Put(_, _)) => Access::Exclusive,
        Ok(Command::List) => Access::Shared,
        Ok(Command::Get(_)) => Access::Shared,
        _ => Access::Detached,
    }
}

fn send_all(client: &mut Client, lines: Vec<String>)
    ensures
        final(client)@ == (ClientView {
            outbox: old(client)@.outbox + lines.deep_view().map_values(
                |line: Seq<char>| frame(line),
            ),
            state: old(client)@.state,
        }),
{
    let mut i: usize = 0;
    assert(lines.deep_view().take(0) =~= Seq::empty());
    assert(client@.outbox =~= old(client)@.outbox + lines.deep_view().take(0).map_values(
        |line: Seq<char>| frame(line),
    ));
    while i < lines.len()
        invariant
            i <= lines@.len(),
            client@.state == old(client)@.state,
            client@.outbox == old(client)@.outbox + lines.deep_view().take(i as int).map_values(
                |line: Seq<char>| frame(line),
            ),
        decreases lines@.len() - i,
    {
        client.send(lines[i].as_str());
        assert(lines.deep_view().take(i + 1).map_values(|line: Seq<char>| frame(line))
            =~= lines.deep_view().take(i as int).map_values(|line: Seq<char>| frame(line)).push(
            frame(lines@[i as int]@),
        ));
        i = i + 1;
    }
    assert(lines.deep_view().take(lines@.len() as int) =~= lines.deep_view());
}

fn send_one(client: &mut Client, line: String)
    ensures
        final(client)@ == (ClientView {
            outbox: old(client)@.outbox + seq![line@].map_values(|line: Seq<char>| frame(line)),
            state: old(client)@.state,
        }),
{
    client.send(line.as_str());
    assert(client@.outbox =~= old(client)@.outbox + seq![line@].map_values(
        |line: Seq<char>| frame(line),
    ));
}

/// The step of a session that cannot reach the store, or does not need it.
/// `LIST`, `GET` and `PUT` are answered with the error `Locked`; everything
/// else goes as in `serve`. Returns whether the session goes on.
pub fn serve_without_store(client: &mut Client, outcome: Result<Command, ClientError>) -> (open:
    bool)
    ensures
        final(client)@ == served(old(client)@, None, outcome_view(outcome)),
        open == !(final(client)@.state is Closed),
{
    match client.state() {
        SessionState::Closed => {
            return false;
        },
        _ => {},
    }
    match outcome {
        Ok(Command::List) => {
            send_all(client, list_reply(Err(DBError::Locked)));
            true
        },
        Ok(Command::Get(_)) => {
            send_one(client, get_reply(Err(DBError::Locked)));
            true
        },
        Ok(Command::Put(_, _)) => {
            send_one(client, put_reply(Err(DBError::Locked)));
            true
        },
        Ok(Command::Quit) => {
            client.quit();
            assert(client@.outbox =~= old(client)@.outbox + seq![FAREWELL@].map_values(
                |line: Seq<char>| frame(line),
            ));
            false
        },
        Err(ClientError::InvalidCommand(_)) => {
            client.send(INVALID);
            assert(client@.outbox =~= old(client)@.outbox + seq![INVALID@].map_values(
                |line: Seq<char>| frame(line),
            ));
            true
        },
        Err(_) => {
            client.close();
            assert(client@.outbox =~= old(client)@.outbox + Seq::<Seq<char>>::empty().map_values(
                |line: Seq<char>| frame(line),
            ));
            false
        },
    }
}

/// The step of a session that may read the store: `LIST` and `GET` are
/// answered from it. A `PUT` needs the store for itself and goes to `serve`.
/// Returns whether the session goes on.
pub fn serve_shared(client: &mut Client, db: &Database, outcome: Result<Command, ClientError>) -> (open:
    bool)
    requires
        db.wf(),
        access_of(outcome_view(outcome)) != Access::Exclusive,
    ensures
        final(client)@ == served(old(client)@, Some(db@), outcome_view(outcome)),
        open == !(final(client)@.state is Closed),
{
    match client.state() {
        SessionState::Closed => {
            return false;
        },
        _ => {},
    }
    match outcome {
        Ok(Command::List) => {
            send_all(client, list_reply(db.list()));
            true
        },
        Ok(Command::Get(key)) => {
            send_one(client, get_reply(db.get(key)));
            true
        },
        other => {
            assert(replies(Some(db@), outcome_view(other)) == replies(None, outcome_view(other)));
            serve_without_store(client, other)
        },
    }
}

/// The step of a session that has the store for itself: every command is
/// answered from it, and `PUT` stores its value unless the key is stored
/// already. Returns whether the session goes on.
pub fn serve(client: &mut Client, db: &mut Database, outcome: Result<Command, ClientError>) -> (open:
    bool)
    requires
        old(db).wf(),
    ensures
        final(db).wf(),
        final(db)@ == stored(old(client)@, old(db)@, outcome_view(outcome)),
        final(client)@ == served(old(client)@, Some(old(db)@), outcome_view(outcome)),
        open == !(final(client)@.state is Closed),
{
    match client.state() {
        SessionState::Closed => {
            return false;
        },
        _ => {},
    }
    match outcome {
        Ok(Command::Put(key, value)) => {
            send_one(client, put_reply(db.put(key, value)));
            true
        },
        other => serve_shared(client, db, other),
    }
}

} // verus!
