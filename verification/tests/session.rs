use redis_ish::client::{Client, ClientError, SessionState};
use redis_ish::commands::Command;
use redis_ish::database::{DBError, Database};
use redis_ish::server::{
    access, error_reply, get_reply, list_reply, put_reply, serve, serve_shared,
    serve_without_store, Access,
};
use std::io::{Error, ErrorKind};

fn s(text: &str) -> String {
    String::from(text)
}

fn client() -> Client {
    Client::new().expect("the grammar compiles")
}

fn line(text: &str) -> Result<Vec<u8>, Error> {
    Ok(text.as_bytes().to_vec())
}

/// Sends one line to an open session and returns what it answers.
fn exchange(client: &mut Client, db: &mut Database, text: &str) -> (Vec<String>, bool) {
    let outcome = client.wait_command(line(text));
    let open = serve(client, db, outcome);
    (client.drain(), open)
}

#[test]
fn sample_session() {
    let mut db = Database::new();
    let mut client = client();
    client.hello();
    assert_eq!(client.drain(), vec![s("Hello from redis-ish !\n")]);
    assert_eq!(exchange(&mut client, &mut db, "PUT a 1\n"), (vec![s("Stored a\n")], true));
    assert_eq!(exchange(&mut client, &mut db, "GET a\n"), (vec![s("Last value = 1\n")], true));
    assert_eq!(exchange(&mut client, &mut db, "PUT a 2\n"), (vec![s("Db Error: Exists\n")], true));
    assert_eq!(
        exchange(&mut client, &mut db, "LIST\n"),
        (vec![s("1 keys.\n"), s("> a\n")], true)
    );
    assert_eq!(exchange(&mut client, &mut db, "QUIT\n"), (vec![s("Bye !\n")], false));
    assert_eq!(client.state(), SessionState::Closed);
    assert_eq!(db.get(s("a")), Ok(s("1")));
}

#[test]
fn new_session_waits_to_be_greeted() {
    let mut client = client();
    assert_eq!(client.state(), SessionState::Greeting);
    assert_eq!(client.drain(), Vec::<String>::new());
}

#[test]
fn hello_greets_once() {
    let mut client = client();
    client.hello();
    assert_eq!(client.state(), SessionState::Listening);
    client.hello();
    assert_eq!(client.drain(), vec![s("Hello from redis-ish !\n")]);
    client.quit();
    client.hello();
    assert_eq!(client.drain(), vec![s("Bye !\n")]);
    assert_eq!(client.state(), SessionState::Closed);
}

#[test]
fn send_frames_each_message_as_a_line() {
    let mut client = client();
    client.send("one");
    client.send("");
    client.send("two words");
    assert_eq!(client.drain(), vec![s("one\n"), s("\n"), s("two words\n")]);
    assert_eq!(client.drain(), Vec::<String>::new());
    assert_eq!(client.state(), SessionState::Greeting);
}

#[test]
fn quit_says_goodbye_and_closes() {
    let mut client = client();
    client.hello();
    client.quit();
    assert_eq!(client.drain(), vec![s("Hello from redis-ish !\n"), s("Bye !\n")]);
    assert_eq!(client.state(), SessionState::Closed);
}

#[test]
fn close_ends_the_session_silently() {
    let mut client = client();
    client.hello();
    client.drain();
    client.close();
    assert_eq!(client.drain(), Vec::<String>::new());
    assert_eq!(client.state(), SessionState::Closed);
}

#[test]
fn wait_command_reads_commands() {
    let mut client = client();
    assert_eq!(client.wait_command(line("LIST\n")).unwrap(), Command::List);
    assert_eq!(client.wait_command(line("GET plop\n")).unwrap(), Command::Get(s("plop")));
    assert_eq!(
        client.wait_command(line("PUT plop 1234a\n")).unwrap(),
        Command::Put(s("plop"), s("1234a"))
    );
    assert_eq!(client.wait_command(line("QUIT\n")).unwrap(), Command::Quit);
    assert_eq!(client.wait_command(line("  QUIT  ")).unwrap(), Command::Quit);
    assert_eq!(client.state(), SessionState::Greeting);
    assert_eq!(client.drain(), Vec::<String>::new());
}

#[test]
fn wait_command_without_input() {
    let mut client = client();
    assert!(matches!(client.wait_command(Ok(Vec::new())), Err(ClientError::NoInput)));
}

#[test]
fn wait_command_keeps_the_invalid_line() {
    let mut client = client();
    match client.wait_command(line("  FOO bar \r\n")) {
        Err(ClientError::InvalidCommand(rejected)) => assert_eq!(rejected, "FOO bar"),
        other => panic!("{:?}", other),
    }
    match client.wait_command(line("\n")) {
        Err(ClientError::InvalidCommand(rejected)) => assert_eq!(rejected, ""),
        other => panic!("{:?}", other),
    }
    match client.wait_command(line("GET a\0 b\n")) {
        Err(ClientError::InvalidCommand(rejected)) => assert_eq!(rejected, "GET a\0 b"),
        other => panic!("{:?}", other),
    }
}

#[test]
fn wait_command_rejects_bytes_that_are_no_text() {
    let mut client = client();
    assert!(matches!(
        client.wait_command(Ok(vec![0x47, 0x45, 0x54, 0x20, 0xff, 0x0a])),
        Err(ClientError::DecodingFailed)
    ));
    assert!(matches!(client.wait_command(Ok(vec![0xc3])), Err(ClientError::DecodingFailed)));
    assert!(matches!(
        client.wait_command(Ok(vec![0xed, 0xa0, 0x80])),
        Err(ClientError::DecodingFailed)
    ));
}

#[test]
fn wait_command_decodes_text_beyond_ascii() {
    let mut client = client();
    assert_eq!(
        client.wait_command(Ok(vec![0x47, 0x45, 0x54, 0x20, 0xc3, 0xa9, 0x0a])).unwrap(),
        Command::Get(s("\u{e9}"))
    );
}

#[test]
fn wait_command_hands_on_the_read_failure() {
    let mut client = client();
    match client.wait_command(Err(Error::new(ErrorKind::ConnectionReset, "reset"))) {
        Err(ClientError::ReadFailure(e)) => {
            assert_eq!(e.kind(), ErrorKind::ConnectionReset);
            assert_eq!(e.to_string(), "reset");
        }
        other => panic!("{:?}", other),
    }
}

#[test]
fn invalid_command_keeps_the_session_open() {
    let mut db = Database::new();
    let mut client = client();
    client.hello();
    client.drain();
    assert_eq!(exchange(&mut client, &mut db, "FOO bar\n"), (vec![s("Invalid command\n")], true));
    assert_eq!(client.state(), SessionState::Listening);
    assert_eq!(exchange(&mut client, &mut db, "PUT a 1\n"), (vec![s("Stored a\n")], true));
    assert_eq!(exchange(&mut client, &mut db, "get a\n"), (vec![s("Invalid command\n")], true));
    assert_eq!(exchange(&mut client, &mut db, "GET a\n"), (vec![s("Last value = 1\n")], true));
}

#[test]
fn get_of_unknown_key_says_no_data() {
    let mut db = Database::new();
    let mut client = client();
    client.hello();
    client.drain();
    assert_eq!(exchange(&mut client, &mut db, "GET a\n"), (vec![s("No data !\n")], true));
}

#[test]
fn list_counts_the_key_lines() {
    let mut db = Database::new();
    let mut client = client();
    client.hello();
    client.drain();
    assert_eq!(exchange(&mut client, &mut db, "LIST\n"), (vec![s("0 keys.\n")], true));
    for n in 0..12 {
        let (answer, open) = exchange(&mut client, &mut db, &format!("PUT key{} {}\n", n, n));
        assert_eq!(answer, vec![format!("Stored key{}\n", n)]);
        assert!(open);
    }
    let (answer, open) = exchange(&mut client, &mut db, "LIST\n");
    assert!(open);
    assert_eq!(answer.len(), 13);
    assert_eq!(answer[0], "12 keys.\n");
    for n in 0..12 {
        assert_eq!(answer[1 + n], format!("> key{}\n", n));
    }
}

#[test]
fn quit_ends_the_session_for_good() {
    let mut db = Database::new();
    let mut client = client();
    client.hello();
    client.drain();
    assert_eq!(exchange(&mut client, &mut db, "QUIT\n"), (vec![s("Bye !\n")], false));
    assert_eq!(exchange(&mut client, &mut db, "PUT a 1\n"), (Vec::<String>::new(), false));
    assert_eq!(exchange(&mut client, &mut db, "LIST\n"), (Vec::<String>::new(), false));
    assert_eq!(exchange(&mut client, &mut db, "QUIT\n"), (Vec::<String>::new(), false));
    assert_eq!(db.list(), Ok(Vec::<String>::new()));
    assert_eq!(client.state(), SessionState::Closed);
}

#[test]
fn sessions_end_without_answer_when_the_peer_is_gone() {
    let mut db = Database::new();
    let ends: [fn() -> Result<Vec<u8>, Error>; 3] = [
        || Ok(Vec::new()),
        || Ok(vec![0xff, 0xfe]),
        || Err(Error::new(ErrorKind::BrokenPipe, "gone")),
    ];
    for end in ends {
        let mut client = client();
        client.hello();
        client.drain();
        let outcome = client.wait_command(end());
        assert_eq!(access(&outcome), Access::Detached);
        assert!(!serve(&mut client, &mut db, outcome));
        assert_eq!(client.drain(), Vec::<String>::new());
        assert_eq!(client.state(), SessionState::Closed);
    }
}

#[test]
fn access_follows_the_command() {
    assert_eq!(access(&Ok(Command::List)), Access::Shared);
    assert_eq!(access(&Ok(Command::Get(s("a")))), Access::Shared);
    assert_eq!(access(&Ok(Command::Put(s("a"), s("1")))), Access::Exclusive);
    assert_eq!(access(&Ok(Command::Quit)), Access::Detached);
    assert_eq!(access(&Err(ClientError::NoInput)), Access::Detached);
    assert_eq!(access(&Err(ClientError::DecodingFailed)), Access::Detached);
    assert_eq!(access(&Err(ClientError::InvalidCommand(s("x")))), Access::Detached);
}

#[test]
fn shared_steps_answer_from_the_store() {
    let mut db = Database::new();
    assert_eq!(db.put(s("a"), s("1")), Ok(s("a")));
    let mut client = client();
    client.hello();
    client.drain();
    assert!(serve_shared(&mut client, &db, Ok(Command::Get(s("a")))));
    assert!(serve_shared(&mut client, &db, Ok(Command::Get(s("b")))));
    assert!(serve_shared(&mut client, &db, Ok(Command::List)));
    assert!(serve_shared(&mut client, &db, Err(ClientError::InvalidCommand(s("x")))));
    assert_eq!(
        client.drain(),
        vec![
            s("Last value = 1\n"),
            s("No data !\n"),
            s("1 keys.\n"),
            s("> a\n"),
            s("Invalid command\n")
        ]
    );
    assert!(!serve_shared(&mut client, &db, Ok(Command::Quit)));
    assert_eq!(client.drain(), vec![s("Bye !\n")]);
    assert!(!serve_shared(&mut client, &db, Ok(Command::List)));
    assert_eq!(client.drain(), Vec::<String>::new());
}

#[test]
fn steps_without_store_report_the_lock() {
    let mut client = client();
    client.hello();
    client.drain();
    assert!(serve_without_store(&mut client, Ok(Command::List)));
    assert!(serve_without_store(&mut client, Ok(Command::Get(s("a")))));
    assert!(serve_without_store(&mut client, Ok(Command::Put(s("a"), s("1")))));
    assert!(serve_without_store(&mut client, Err(ClientError::InvalidCommand(s("x")))));
    assert_eq!(
        client.drain(),
        vec![
            s("Db Error: Locked\n"),
            s("Db Error: Locked\n"),
            s("Db Error: Locked\n"),
            s("Invalid command\n")
        ]
    );
    assert_eq!(client.state(), SessionState::Listening);
    assert!(!serve_without_store(&mut client, Ok(Command::Quit)));
    assert_eq!(client.drain(), vec![s("Bye !\n")]);
    assert!(!serve_without_store(&mut client, Ok(Command::List)));
    assert_eq!(client.drain(), Vec::<String>::new());
}

#[test]
fn replies_show_what_the_store_returned() {
    assert_eq!(get_reply(Ok(s("v"))), "Last value = v");
    assert_eq!(get_reply(Ok(s(""))), "Last value = ");
    assert_eq!(get_reply(Err(DBError::NoData)), "No data !");
    assert_eq!(get_reply(Err(DBError::Locked)), "Db Error: Locked");
    assert_eq!(get_reply(Err(DBError::Exists)), "Db Error: Exists");
    assert_eq!(put_reply(Ok(s("k"))), "Stored k");
    assert_eq!(put_reply(Err(DBError::Exists)), "Db Error: Exists");
    assert_eq!(put_reply(Err(DBError::Locked)), "Db Error: Locked");
    assert_eq!(put_reply(Err(DBError::NoData)), "Db Error: NoData");
    assert_eq!(list_reply(Ok(Vec::new())), vec![s("0 keys.")]);
    assert_eq!(
        list_reply(Ok(vec![s("b"), s("a"), s("b")])),
        vec![s("3 keys."), s("> b"), s("> a"), s("> b")]
    );
    assert_eq!(list_reply(Err(DBError::Locked)), vec![s("Db Error: Locked")]);
    assert_eq!(error_reply(DBError::NoData), "Db Error: NoData");
    assert_eq!(error_reply(DBError::Exists), format!("Db Error: {:?}", DBError::Exists));
    assert_eq!(error_reply(DBError::Locked), format!("Db Error: {:?}", DBError::Locked));
}

#[test]
fn sessions_share_one_store() {
    let mut db = Database::new();
    let mut first = client();
    let mut second = client();
    first.hello();
    second.hello();
    first.drain();
    second.drain();
    assert_eq!(exchange(&mut first, &mut db, "PUT k one\n"), (vec![s("Stored k\n")], true));
    assert_eq!(
        exchange(&mut second, &mut db, "PUT k two\n"),
        (vec![s("Db Error: Exists\n")], true)
    );
    assert_eq!(exchange(&mut second, &mut db, "GET k\n"), (vec![s("Last value = one\n")], true));
    assert_eq!(exchange(&mut first, &mut db, "QUIT\n"), (vec![s("Bye !\n")], false));
    assert_eq!(exchange(&mut second, &mut db, "GET k\n"), (vec![s("Last value = one\n")], true));
}
