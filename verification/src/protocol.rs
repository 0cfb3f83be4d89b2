//! The text protocol: one command per line, words separated by whitespace,
//! the command name in any letter case.
use vstd::prelude::*;
use crate::text::{
    parse_bounded, parse_unsigned, same_text, split_words, views, words,
};

verus! {

broadcast use vstd::string::group_string_axioms;

/// A request of a client.
#[derive(Debug)]
pub enum Command {
    Ping,
    SetKey { key: String, value: String },
    SetEx { key: String, value: String, ttl: u64 },
    Get { key: String },
    Delete { key: String },
    Metrics,
    Unknown,
}

/// A request of a client, with its strings taken as character sequences.
pub enum CommandView {
    Ping,
    SetKey { key: Seq<char>, value: Seq<char> },
    SetEx { key: Seq<char>, value: Seq<char>, ttl: u64 },
    Get { key: Seq<char> },
    Delete { key: Seq<char> },
    Metrics,
    Unknown,
}

impl View for Command {
    type V = CommandView;

    open spec fn view(&self) -> CommandView {
        match self {
            Command::Ping => CommandView::Ping,
            Command::SetKey { key, value } => CommandView::SetKey { key: key@, value: value@ },
            Command::SetEx { key, value, ttl } => CommandView::SetEx {
                key: key@,
                value: value@,
                ttl: *ttl,
            },
            Command::Get { key } => CommandView::Get { key: key@ },
            Command::Delete { key } => CommandView::Delete { key: key@ },
            Command::Metrics => CommandView::Metrics,
            Command::Unknown => CommandView::Unknown,
        }
    }
}

pub open spec fn kw_ping() -> Seq<char> {
    seq!['P', 'I', 'N', 'G']
}

pub open spec fn kw_set() -> Seq<char> {
    seq!['S', 'E', 'T']
}

pub open spec fn kw_setex() -> Seq<char> {
    seq!['S', 'E', 'T', 'E', 'X']
}

pub open spec fn kw_get() -> Seq<char> {
    seq!['G', 'E', 'T']
}

pub open spec fn kw_del() -> Seq<char> {
    seq!['D', 'E', 'L']
}

pub open spec fn kw_metrics() -> Seq<char> {
    seq!['M', 'E', 'T', 'R', 'I', 'C', 'S']
}

/// The command that the words `w` of a line ask for, `head` being the
/// upper-case form of the first word. `PING` and `METRICS` take any
/// arguments; `SET` takes exactly a key and a value, `SETEX` a key, a value
/// and a number of seconds, `GET` and `DEL` exactly a key.
pub open spec fn command_for(head: Seq<char>, w: Seq<Seq<char>>) -> CommandView {
    if head == kw_ping() {
        CommandView::Ping
    } else if head == kw_set() {
        if w.len() != 3 {
            CommandView::Unknown
        } else {
            CommandView::SetKey { key: w[1], value: w[2] }
        }
    } else if head == kw_setex() {
        if w.len() != 4 {
            CommandView::Unknown
        } else {
            match parse_unsigned(w[3], u64::MAX as nat) {
                Some(t) => CommandView::SetEx { key: w[1], value: w[2], ttl: t as u64 },
                None => CommandView::Unknown,
            }
        }
    } else if head == kw_get() {
        if w.len() != 2 {
            CommandView::Unknown
        } else {
            CommandView::Get { key: w[1] }
        }
    } else if head == kw_del() {
        if w.len() != 2 {
            CommandView::Unknown
        } else {
            CommandView::Delete { key: w[1] }
        }
    } else if head == kw_metrics() {
        CommandView::Metrics
    } else {
        CommandView::Unknown
    }
}

/// What `str::to_uppercase` returns for a string with these characters:
/// its upper-case form under the Unicode case mapping.
pub uninterp spec fn upper_case(s: Seq<char>) -> Seq<char>;

/// Trusted: `str::to_uppercase`; its result is named `upper_case` of the
/// argument's characters.
#[verifier::external_body]
fn to_upper_case(s: &str) -> (r: String)
    ensures
        r@ == upper_case(s@),
{
    s.to_uppercase()
}

/// The command that a line asks for.
pub open spec fn parse_spec(input: Seq<char>) -> CommandView {
    let w = words(input);
    if w.len() == 0 {
        CommandView::Unknown
    } else {
        command_for(upper_case(w[0]), w)
    }
}

/// The command that the words `w` of a line ask for, `head` being the
/// upper-case form of its first word.
pub fn command_from_words(head: &str, w: &Vec<String>) -> (cmd: Command)
    ensures
        cmd@ == command_for(head@, views(w@)),
{
    proof {
        reveal_strlit("PING");
        reveal_strlit("SET");
        reveal_strlit("SETEX");
        reveal_strlit("GET");
        reveal_strlit("DEL");
        reveal_strlit("METRICS");
        assert("PING"@ =~= kw_ping());
        assert("SET"@ =~= kw_set());
        assert("SETEX"@ =~= kw_setex());
        assert("GET"@ =~= kw_get());
        assert("DEL"@ =~= kw_del());
        assert("METRICS"@ =~= kw_metrics());
    }
    let ghost ws = views(w@);
    if same_text(head, "PING") {
        Command::Ping
    } else if same_text(head, "SET") {
        if w.len() != 3 {
            Command::Unknown
        } else {
            Command::SetKey { key: w[1].clone(), value: w[2].clone() }
        }
    } else if same_text(head, "SETEX") {
        if w.len() != 4 {
            Command::Unknown
        } else {
            match parse_bounded(w[3].as_str(), u64::MAX) {
                Some(t) => Command::SetEx { key: w[1].clone(), value: w[2].clone(), ttl: t },
                None => Command::Unknown,
            }
        }
    } else if same_text(head, "GET") {
        if w.len() != 2 {
            Command::Unknown
        } else {
            Command::Get { key: w[1].clone() }
        }
    } else if same_text(head, "DEL") {
        if w.len() != 2 {
            Command::Unknown
        } else {
            Command::Delete { key: w[1].clone() }
        }
    } else if same_text(head, "METRICS") {
        Command::Metrics
    } else {
        Command::Unknown
    }
}

/// Reads the command that one line of a client asks for.
pub fn parse(input: &str) -> (cmd: Command)
    ensures
        cmd@ == parse_spec(input@),
{
    let w = split_words(input);
    if w.len() == 0 {
        return Command::Unknown;
    }
    let head = to_upper_case(w[0].as_str());
    command_from_words(head.as_str(), &w)
}

/// The command a line asks for depends only on its words: leading,
/// trailing and repeated whitespace make no difference.
pub proof fn law_parse_depends_on_words(a: Seq<char>, b: Seq<char>)
    requires
        words(a) == words(b),
    ensures
        parse_spec(a) == parse_spec(b),
{
}

/// A line whose first word reads `SET` in upper case asks to write its
/// second word as the value of its first argument exactly when it has three
/// words; otherwise it is not understood.
pub proof fn law_set_arity(line: Seq<char>)
    requires
        words(line).len() > 0,
        upper_case(words(line)[0]) == kw_set(),
    ensures
        words(line).len() == 3 ==> parse_spec(line) == (CommandView::SetKey {
            key: words(line)[1],
            value: words(line)[2],
        }),
        words(line).len() != 3 ==> parse_spec(line) == CommandView::Unknown,
{
}

} // verus!
