//! The command grammar and the parser that reads one line as a command.

use crate::pattern::{captures, compile, compiled, regex_groups};
use crate::pattern::{pattern_groups, pattern_matches, pattern_valid};
use crate::text::{is_space, lemma_trim_ignores_padding, trim, trimmed};
use regex::Regex;
use vstd::prelude::*;

verus! {

/// A command of the protocol.
#[derive(Debug, PartialEq)]
pub enum Command {
    List,
    Get(String),
    Put(String, String),
    Quit,
}

/// A command, with its keys and values as character sequences.
pub enum CommandView {
    List,
    Get(Seq<char>),
    Put(Seq<char>, Seq<char>),
    Quit,
}

impl View for Command {
    type V = CommandView;

    open spec fn view(&self) -> CommandView {
        match self {
            Command::List => CommandView::List,
            Command::Get(key) => CommandView::Get(key@),
            Command::Put(key, value) => CommandView::Put(key@, value@),
            Command::Quit => CommandView::Quit,
        }
    }
}

/// The view of a command that may be missing.
pub open spec fn view_of(command: Option<Command>) -> Option<CommandView> {
    match command {
        Some(c) => Some(c@),
        None => None,
    }
}

/// The pattern of the `LIST` command.
pub const LIST_PATTERN: &'static str = "^LIST$";

/// The pattern of the `GET` command; its group is the key.
pub const GET_PATTERN: &'static str = "^GET (\\S+)$";

/// The pattern of the `PUT` command; its groups are the key and the value.
pub const PUT_PATTERN: &'static str = "^PUT (\\S+) (\\S+)$";

/// The pattern of the `QUIT` command.
pub const QUIT_PATTERN: &'static str = "^QUIT$";

/// Which command a rule of the grammar builds from the line it matches.
#[derive(Debug, Clone, Copy)]
pub enum RuleKind {
    List,
    Get,
    Put,
    Quit,
}

/// The grammar: the patterns in the order in which they are tried, each with
/// the command it stands for.
pub open spec fn grammar() -> Seq<(Seq<char>, RuleKind)> {
    seq![
        (LIST_PATTERN@, RuleKind::List),
        (GET_PATTERN@, RuleKind::Get),
        (PUT_PATTERN@, RuleKind::Put),
        (QUIT_PATTERN@, RuleKind::Quit),
    ]
}

/// The text of capture group `i`, if there is such a group and it took part
/// in the match.
pub open spec fn group(groups: Seq<Option<Seq<char>>>, i: int) -> Option<Seq<char>> {
    if 0 <= i < groups.len() {
        groups[i]
    } else {
        None
    }
}

/// The command that a rule of kind `kind` builds from the capture groups of
/// its match. `Get` takes its key from group 1, `Put` its key and value from
/// groups 1 and 2; without them there is no command.
pub open spec fn built(kind: RuleKind, groups: Seq<Option<Seq<char>>>) -> Option<CommandView> {
    match kind {
        RuleKind::List => Some(CommandView::List),
        RuleKind::Get => match group(groups, 1) {
            Some(key) => Some(CommandView::Get(key)),
            None => None,
        },
        RuleKind::Put => match (group(groups, 1), group(groups, 2)) {
            (Some(key), Some(value)) => Some(CommandView::Put(key, value)),
            _ => None,
        },
        RuleKind::Quit => Some(CommandView::Quit),
    }
}

/// What one rule makes of `line`: the command built from the capture groups
/// of `pattern` in `line`, if the pattern captures anything.
pub open spec fn applied(pattern: Seq<char>, kind: RuleKind, line: Seq<char>) -> Option<
    CommandView,
> {
    match pattern_groups(pattern, line) {
        Some(groups) => built(kind, groups),
        None => None,
    }
}

/// First match wins: the first rule whose pattern matches `line` is applied,
/// and no later rule is tried, whatever the first one builds.
pub open spec fn select(rules: Seq<(Seq<char>, RuleKind)>, line: Seq<char>) -> Option<
    CommandView,
>
    decreases rules.len(),
{
    if rules.len() == 0 {
        None
    } else if pattern_matches(rules.first().0, line) {
        applied(rules.first().0, rules.first().1, line)
    } else {
        select(rules.drop_first(), line)
    }
}

/// The command that an input line stands for: the line is trimmed, then run
/// through the grammar.
pub open spec fn parse(input: Seq<char>) -> Option<CommandView> {
    select(grammar(), trimmed(input))
}

/// White space around a line does not change the command it stands for.
pub proof fn lemma_parse_ignores_padding(left: Seq<char>, line: Seq<char>, right: Seq<char>)
    requires
        forall|j: int| 0 <= j < left.len() ==> is_space(#[trigger] left[j]),
        forall|j: int| 0 <= j < right.len() ==> is_space(#[trigger] right[j]),
    ensures
        parse(left + line + right) == parse(line),
{
    lemma_trim_ignores_padding(left, line, right);
}

/// The first rule whose pattern matches decides alone: where the pattern of
/// rule `i` matches `line` and no earlier one does, the grammar yields what
/// rule `i` makes of the line; where none matches, there is no command.
pub proof fn lemma_first_match_wins(rules: Seq<(Seq<char>, RuleKind)>, line: Seq<char>, i: int)
    requires
        0 <= i <= rules.len(),
        forall|j: int| 0 <= j < i ==> !pattern_matches(#[trigger] rules[j].0, line),
        i < rules.len() ==> pattern_matches(rules[i].0, line),
    ensures
        select(rules, line) == if i < rules.len() {
            applied(rules[i].0, rules[i].1, line)
        } else {
            None
        },
    decreases rules.len(),
{
    if rules.len() > 0 && i > 0 {
        let rest = rules.drop_first();
        assert(!pattern_matches(rules[0].0, line));
        assert forall|j: int| 0 <= j < i - 1 implies !pattern_matches(
            #[trigger] rest[j].0,
            line,
        ) by {
            assert(rest[j] == rules[j + 1]);
        }
        lemma_first_match_wins(rest, line, i - 1);
    }
}

/// Whether every pattern of the grammar compiles.
pub open spec fn grammar_compiles() -> bool {
    forall|i: int| 0 <= i < grammar().len() ==> pattern_valid(#[trigger] grammar()[i].0)
}

fn clone_group(groups: &Vec<Option<String>>, i: usize) -> (r: Option<String>)
    ensures
        r.deep_view() == group(groups.deep_view(), i as int),
{
    if i < groups.len() {
        assert(groups.deep_view()[i as int] == groups@[i as int].deep_view());
        match &groups[i] {
            Some(text) => Some(text.clone()),
            None => None,
        }
    } else {
        None
    }
}

/// The `LIST` command.
pub fn rule_list(groups: &Vec<Option<String>>) -> (r: Option<Command>)
    ensures
        view_of(r) == built(RuleKind::List, groups.deep_view()),
{
    Some(Command::List)
}

/// The `GET` command with the key in group 1.
pub fn rule_get(groups: &Vec<Option<String>>) -> (r: Option<Command>)
    ensures
        view_of(r) == built(RuleKind::Get, groups.deep_view()),
{
    match clone_group(groups, 1) {
        Some(key) => Some(Command::Get(key)),
        None => None,
    }
}

/// The `PUT` command with the key in group 1 and the value in group 2.
pub fn rule_put(groups: &Vec<Option<String>>) -> (r: Option<Command>)
    ensures
        view_of(r) == built(RuleKind::Put, groups.deep_view()),
{
    match clone_group(groups, 1) {
        Some(key) => match clone_group(groups, 2) {
            Some(value) => Some(Command::Put(key, value)),
            None => None,
        },
        None => None,
    }
}

/// The `QUIT` command.
pub fn rule_quit(groups: &Vec<Option<String>>) -> (r: Option<Command>)
    ensures
        view_of(r) == built(RuleKind::Quit, groups.deep_view()),
{
    Some(Command::Quit)
}

impl RuleKind {
    /// Builds the command of this kind from the capture groups of a match.
    pub fn build(self, groups: &Vec<Option<String>>) -> (r: Option<Command>)
        ensures
            view_of(r) == built(self, groups.deep_view()),
    {
        match self {
            RuleKind::List => rule_list(groups),
            RuleKind::Get => rule_get(groups),
            RuleKind::Put => rule_put(groups),
            RuleKind::Quit => rule_quit(groups),
        }
    }
}

/// One rule of the grammar: a compiled pattern and the command it builds.
struct Rule {
    regex: Regex,
    kind: RuleKind,
}

impl Rule {
    /// The rule holds the compiled form of `pattern` and builds `kind`.
    spec fn stands_for(&self, pattern: Seq<char>, kind: RuleKind) -> bool {
        compiled(pattern) == Some(self.regex) && self.kind == kind
    }

    fn new(pattern: &str, kind: RuleKind) -> (r: Option<Rule>)
        ensures
            r is Some <==> pattern_valid(pattern@),
            r matches Some(rule) ==> rule.stands_for(pattern@, kind),
    {
        match compile(pattern) {
            Some(regex) => Some(Rule { regex, kind }),
            None => None,
        }
    }

    /// What the rule makes of `line`.
    spec fn applied_to(&self, line: Seq<char>) -> Option<CommandView> {
        match regex_groups(self.regex, line) {
            Some(groups) => built(self.kind, groups),
            None => None,
        }
    }

    fn apply(&self, input: &str) -> (r: Option<Command>)
        ensures
            view_of(r) == self.applied_to(input@),
    {
        match captures(&self.regex, input) {
            Some(groups) => self.kind.build(&groups),
            None => None,
        }
    }
}

/// The parser: the rules of the grammar, compiled once.
pub struct Parser {
    rules: Vec<Rule>,
}

impl Parser {
    #[verifier::type_invariant]
    spec fn holds_grammar(&self) -> bool {
        &&& self.rules@.len() == grammar().len()
        &&& forall|i: int|
            0 <= i < self.rules@.len() ==> (#[trigger] self.rules@[i]).stands_for(
                grammar()[i].0,
                grammar()[i].1,
            )
    }

    /// Compiles the grammar. There is a parser exactly when every pattern
    /// compiles.
    pub fn new() -> (r: Option<Parser>)
        ensures
            r is Some <==> grammar_compiles(),
    {
        let list = Rule::new(LIST_PATTERN, RuleKind::List);
        let get = Rule::new(GET_PATTERN, RuleKind::Get);
        let put = Rule::new(PUT_PATTERN, RuleKind::Put);
        let quit = Rule::new(QUIT_PATTERN, RuleKind::Quit);
        match (list, get, put, quit) {
            (Some(list), Some(get), Some(put), Some(quit)) => {
                let mut rules: Vec<Rule> = Vec::new();
                rules.push(list);
                rules.push(get);
                rules.push(put);
                rules.push(quit);
                Some(Parser { rules })
            },
            _ => {
                assert(!pattern_valid(grammar()[0].0) || !pattern_valid(grammar()[1].0)
                    || !pattern_valid(grammar()[2].0) || !pattern_valid(grammar()[3].0));
                None
            },
        }
    }

    /// Reads `input` as a command: `None` where no rule of the grammar
    /// matches the trimmed line. The parser itself does not change.
    pub fn find_command(&mut self, input: &str) -> (r: Option<Command>)
        ensures
            view_of(r) == parse(input@),
            *final(self) == *old(self),
    {
        proof {
            use_type_invariant(&*self);
        }
        let line = trim(input);
        let mut i: usize = 0;
        assert(grammar().skip(0) =~= grammar());
        while i < self.rules.len()
            invariant
                i <= self.rules@.len() == grammar().len(),
                *self == *old(self),
                line@ == trimmed(input@),
                forall|j: int|
                    0 <= j < self.rules@.len() ==> (#[trigger] self.rules@[j]).stands_for(
                        grammar()[j].0,
                        grammar()[j].1,
                    ),
                select(grammar(), line@) == select(grammar().skip(i as int), line@),
            decreases self.rules@.len() - i,
        {
            let rule = &self.rules[i];
            assert(grammar().skip(i as int).first() == grammar()[i as int]);
            if rule.regex.is_match(line) {
                return rule.apply(line);
            }
            assert(grammar().skip(i as int).drop_first() =~= grammar().skip(i + 1));
            i = i + 1;
        }
        None
    }
}

} // verus!
