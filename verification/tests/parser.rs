use redis_ish::commands::{rule_get, rule_list, rule_put, rule_quit, Command, Parser, RuleKind};

fn parser() -> Parser {
    Parser::new().expect("the grammar compiles")
}

fn groups(texts: &[Option<&str>]) -> Vec<Option<String>> {
    texts.iter().map(|text| text.map(String::from)).collect()
}

#[test]
fn parser_get() {
    let mut p = parser();
    assert_eq!(p.find_command("GET plop\n").expect("A nice get with newline"), Command::Get(String::from("plop")));
}

#[test]
fn parser_put() {
    let mut p = parser();
    assert_eq!(p.find_command("PUT plop 1234a\n").expect("A nice put"), Command::Put(String::from("plop"), String::from("1234a")));
}

#[test]
fn parser_quit() {
    let mut p = parser();
    assert_eq!(p.find_command("QUIT\n").expect("A nice quit"), Command::Quit);
}

#[test]
fn parser_list() {
    let mut p = parser();
    assert_eq!(p.find_command("LIST\n").expect("A nice list"), Command::List);
}

#[test]
fn parser_accepts_lines_without_newline() {
    let mut p = parser();
    assert_eq!(p.find_command("LIST"), Some(Command::List));
    assert_eq!(p.find_command("QUIT"), Some(Command::Quit));
    assert_eq!(p.find_command("GET a"), Some(Command::Get(String::from("a"))));
    assert_eq!(
        p.find_command("PUT a 1"),
        Some(Command::Put(String::from("a"), String::from("1")))
    );
}

#[test]
fn parser_trims_both_ends() {
    let mut p = parser();
    assert_eq!(p.find_command("  LIST \r\n"), Some(Command::List));
    assert_eq!(p.find_command("\t GET key\u{a0}\n"), Some(Command::Get(String::from("key"))));
    assert_eq!(
        p.find_command("\n\nPUT k v\n\n"),
        Some(Command::Put(String::from("k"), String::from("v")))
    );
}

#[test]
fn parser_rejects_what_is_no_command() {
    let mut p = parser();
    assert_eq!(p.find_command("FOO bar\n"), None);
    assert_eq!(p.find_command(""), None);
    assert_eq!(p.find_command("\n"), None);
    assert_eq!(p.find_command("GET\n"), None);
    assert_eq!(p.find_command("GET a b\n"), None);
    assert_eq!(p.find_command("GET  a\n"), None);
    assert_eq!(p.find_command("PUT a\n"), None);
    assert_eq!(p.find_command("PUT a b c\n"), None);
    assert_eq!(p.find_command("LIST all\n"), None);
    assert_eq!(p.find_command("QUIT now\n"), None);
    assert_eq!(p.find_command("LISTQUIT\n"), None);
    assert_eq!(p.find_command("LIST\nQUIT\n"), None);
}

#[test]
fn parser_keywords_are_case_sensitive() {
    let mut p = parser();
    assert_eq!(p.find_command("list\n"), None);
    assert_eq!(p.find_command("Get a\n"), None);
    assert_eq!(p.find_command("put a b\n"), None);
    assert_eq!(p.find_command("quit\n"), None);
}

#[test]
fn parser_takes_any_token_without_white_space() {
    let mut p = parser();
    assert_eq!(p.find_command("GET a-b.c\n"), Some(Command::Get(String::from("a-b.c"))));
    assert_eq!(
        p.find_command("PUT cl\u{e9} \u{8d8a}\n"),
        Some(Command::Put(String::from("cl\u{e9}"), String::from("\u{8d8a}")))
    );
    assert_eq!(p.find_command("GET a\u{2003}b\n"), None);
    assert_eq!(p.find_command("GET a\0\0"), Some(Command::Get(String::from("a\0\0"))));
}

#[test]
fn parser_can_be_used_again() {
    let mut p = parser();
    assert_eq!(p.find_command("FOO bar\n"), None);
    assert_eq!(p.find_command("GET plop\n"), Some(Command::Get(String::from("plop"))));
    assert_eq!(p.find_command("GET plop\n"), Some(Command::Get(String::from("plop"))));
    let mut q = parser();
    assert_eq!(q.find_command("GET plop\n"), p.find_command("GET plop\n"));
}

#[test]
fn builders_take_their_groups() {
    let found = groups(&[Some("PUT k v"), Some("k"), Some("v")]);
    assert_eq!(rule_list(&found), Some(Command::List));
    assert_eq!(rule_quit(&found), Some(Command::Quit));
    assert_eq!(rule_get(&found), Some(Command::Get(String::from("k"))));
    assert_eq!(rule_put(&found), Some(Command::Put(String::from("k"), String::from("v"))));
    assert_eq!(RuleKind::Put.build(&found), rule_put(&found));
    assert_eq!(RuleKind::Get.build(&found), rule_get(&found));
    assert_eq!(RuleKind::List.build(&found), Some(Command::List));
    assert_eq!(RuleKind::Quit.build(&found), Some(Command::Quit));
}

#[test]
fn builders_need_their_groups() {
    let whole = groups(&[Some("GET")]);
    assert_eq!(rule_get(&whole), None);
    assert_eq!(rule_put(&whole), None);
    let one = groups(&[Some("GET k"), Some("k")]);
    assert_eq!(rule_get(&one), Some(Command::Get(String::from("k"))));
    assert_eq!(rule_put(&one), None);
    let skipped = groups(&[Some("x"), None, Some("v")]);
    assert_eq!(rule_get(&skipped), None);
    assert_eq!(rule_put(&skipped), None);
    let none = groups(&[]);
    assert_eq!(rule_get(&none), None);
    assert_eq!(rule_list(&none), Some(Command::List));
}
