//! Terminals over a web socket: a shell in a running instance, and what goes between it
//! and the socket.
use vstd::prelude::*;

use crate::bytes;
use crate::protocol::Message;
use crate::session;
use crate::stamps;
use crate::text;

verus! {

/// The variables that a terminal takes from the server, beside the locale.
pub open spec fn terminal_names() -> Seq<Seq<char>> {
    seq!["LANG"@, "LANGUAGE"@, "TZ"@, "NO_COLOR"@, "CLICOLOR"@, "CLICOLOR_FORCE"@]
}

/// The environment of a terminal.
pub open spec fn env_of_terminal(vars: Seq<(Seq<char>, Seq<char>)>) -> Seq<
    (Seq<char>, Seq<char>),
> {
    session::with_locale(
        seq![("TERM"@, "xterm-256color"@), ("COLORTERM"@, "truecolor"@)] + session::named_env(
            vars,
            terminal_names(),
        ),
        vars,
    )
}

/// The environment of a terminal: a fixed kind of terminal, and what the server hands on.
pub fn terminal_env(vars: &Vec<(String, String)>) -> (env: Vec<(String, String)>)
    ensures
        stamps::pair_views(env@) == env_of_terminal(stamps::pair_views(vars@)),
{
    let mut names: Vec<&str> = Vec::new();
    names.push("LANG");
    names.push("LANGUAGE");
    names.push("TZ");
    names.push("NO_COLOR");
    names.push("CLICOLOR");
    names.push("CLICOLOR_FORCE");
    assert(Seq::new(names@.len(), |i: int| names@[i]@) =~= terminal_names());
    let mut env: Vec<(String, String)> = Vec::new();
    session::push_var(&mut env, "TERM", "xterm-256color");
    session::push_var(&mut env, "COLORTERM", "truecolor");
    assert(stamps::pair_views(env@) =~= seq![
        ("TERM"@, "xterm-256color"@),
        ("COLORTERM"@, "truecolor"@),
    ]);
    session::push_named(&mut env, vars, &names);
    session::push_locale(&mut env, vars);
    env
}

/// The user that a terminal runs as.
#[derive(Debug, PartialEq, Eq)]
pub struct TerminalUser {
    pub uid: u32,
    pub gid: u32,
    pub group: String,
}

/// The request for a terminal: a shell at the root of the guest, as the server's user.
pub fn terminal_request(id: u64, user: TerminalUser, vars: &Vec<(String, String)>) -> (m: Message)
    ensures
        m matches Message::OpenExec {
            channel_id,
            argv,
            cwd,
            pty,
            term,
            colorterm,
            rows,
            cols,
            uid,
            gid,
            group,
            env,
        } && channel_id == id && argv@.len() == 0 && cwd@ == "/"@ && pty && term@
            == "xterm-256color"@ && colorterm@ == "truecolor"@ && rows == 24 && cols == 80 && uid
            == user.uid && gid == user.gid && group@ == user.group@ && stamps::pair_views(env@)
            == env_of_terminal(stamps::pair_views(vars@)),
{
    Message::OpenExec {
        channel_id: id,
        argv: Vec::new(),
        cwd: "/".to_owned(),
        pty: true,
        term: "xterm-256color".to_owned(),
        colorterm: "truecolor".to_owned(),
        rows: 24,
        cols: 80,
        uid: user.uid,
        gid: user.gid,
        group: user.group,
        env: terminal_env(vars),
    }
}

// ---------------------------------------------------------------------------
// From the socket
// ---------------------------------------------------------------------------

/// A message from the socket.
#[derive(Debug, PartialEq, Eq)]
pub enum SocketMessage {
    Text(String),
    Binary(Vec<u8>),
    Close,
    /// A sign of life.
    Ping,
}

/// What a text says, where it is a record of that form: a kind, and a size.
#[derive(Debug, PartialEq, Eq)]
pub struct TerminalResize {
    pub kind: String,
    pub rows: u16,
    pub cols: u16,
}

/// What a message from the socket means for the terminal.
#[derive(Debug, PartialEq, Eq)]
pub enum BrokerInput {
    Data(Vec<u8>),
    Resize { rows: u16, cols: u16 },
    Close,
}

/// Whether a text may be a record.
pub fn may_be_resize(s: &str) -> (r: bool)
    ensures
        r == text::begins(s@, "{\"type\""@),
{
    text::starts_with(s, "{\"type\"")
}

/// The size that a text asks for, if it asks for one. `parsed` is what the text says,
/// where it is a record.
pub open spec fn asked_size(s: Seq<char>, parsed: Option<TerminalResize>) -> Option<(u16, u16)> {
    match parsed {
        Some(p) => if text::begins(s, "{\"type\""@) && p.kind@ == "resize"@ {
            Some((p.rows, p.cols))
        } else {
            None
        },
        None => None,
    }
}

/// What a message from the socket means for the terminal: a text that asks for a size
/// does that, and any other is typed. `parsed` is what the text says, where it is a
/// record.
pub fn handle_terminal_ws_message(message: SocketMessage, parsed: Option<TerminalResize>) -> (r:
    Option<BrokerInput>)
    ensures
        match message {
            SocketMessage::Text(s) => match asked_size(s@, parsed) {
                Some((rows, cols)) => r == Some(BrokerInput::Resize { rows, cols }),
                None => r matches Some(BrokerInput::Data(bytes)) && bytes@ == vstd::utf8::encode_utf8(s@),
            },
            SocketMessage::Binary(b) => r matches Some(BrokerInput::Data(bytes)) && bytes@ == b@,
            SocketMessage::Close => r == Some(BrokerInput::Close),
            SocketMessage::Ping => r is None,
        },
{
    match message {
        SocketMessage::Text(s) => {
            if let Some(p) = parsed {
                if may_be_resize(s.as_str()) && text::same(p.kind.as_str(), "resize") {
                    return Some(BrokerInput::Resize { rows: p.rows, cols: p.cols });
                }
            }
            let mut typed: Vec<u8> = Vec::new();
            bytes::push_all(&mut typed, s.as_str().as_bytes());
            assert(typed@ =~= vstd::utf8::encode_utf8(s@));
            Some(BrokerInput::Data(typed))
        },
        SocketMessage::Binary(b) => Some(BrokerInput::Data(b)),
        SocketMessage::Close => Some(BrokerInput::Close),
        SocketMessage::Ping => None,
    }
}

/// The messages that go to the guest for something from the socket, and whether they are
/// the last.
pub fn input_messages(id: u64, input: BrokerInput) -> (r: (Vec<Message>, bool))
    ensures
        match input {
            BrokerInput::Data(b) => r.0@.len() == 1 && !r.1 && (r.0@[0] matches Message::Data {
                channel_id,
                bytes,
            } && channel_id == id && bytes@ == b@),
            BrokerInput::Resize { rows, cols } => r.0@ == seq![
                Message::WindowResize { channel_id: id, rows, cols },
            ] && !r.1,
            BrokerInput::Close => r.0@ == seq![
                Message::Eof { channel_id: id },
                Message::Close { channel_id: id },
            ] && r.1,
        },
{
    let mut r: Vec<Message> = Vec::new();
    match input {
        BrokerInput::Data(bytes) => {
            r.push(Message::Data { channel_id: id, bytes });
            (r, false)
        },
        BrokerInput::Resize { rows, cols } => {
            r.push(Message::WindowResize { channel_id: id, rows, cols });
            (r, false)
        },
        BrokerInput::Close => {
            r.push(Message::Eof { channel_id: id });
            r.push(Message::Close { channel_id: id });
            (r, true)
        },
    }
}

// ---------------------------------------------------------------------------
// To the socket
// ---------------------------------------------------------------------------

/// What goes to the socket.
#[derive(Debug, PartialEq, Eq)]
pub enum BrokerOutput {
    Data(Vec<u8>),
    Text(String),
}

/// What is done with a message from the guest: something goes to the socket, and the
/// terminal may be done.
#[derive(Debug, PartialEq, Eq)]
pub struct OutputStep {
    pub output: Option<BrokerOutput>,
    pub done: bool,
}

/// What is done with a message from the guest. Messages for others are passed over.
pub fn output_step(id: u64, message: Message) -> (r: OutputStep)
    ensures
        match message {
            Message::Data { channel_id, bytes } => if channel_id == id {
                !r.done && (r.output matches Some(BrokerOutput::Data(b)) && b@ == bytes@)
            } else {
                !r.done && r.output is None
            },
            Message::Stderr { channel_id, bytes } => if channel_id == id {
                !r.done && (r.output matches Some(BrokerOutput::Data(b)) && b@ == bytes@)
            } else {
                !r.done && r.output is None
            },
            Message::ExitStatus { channel_id, status } => if channel_id == id {
                r.done && (r.output matches Some(BrokerOutput::Text(t)) && t@
                    == "\r\n[process exited: "@ + text::dec_signed(status as int) + "]\r\n"@)
            } else {
                !r.done && r.output is None
            },
            Message::Error { channel_id, message: m } => if channel_id == id {
                r.done && (r.output matches Some(BrokerOutput::Text(t)) && t@ == "\r\n[error: "@
                    + m@ + "]\r\n"@)
            } else {
                !r.done && r.output is None
            },
            _ => !r.done && r.output is None,
        },
{
    match message {
        Message::Data { channel_id, bytes } => if channel_id == id {
            return OutputStep { output: Some(BrokerOutput::Data(bytes)), done: false };
        },
        Message::Stderr { channel_id, bytes } => if channel_id == id {
            return OutputStep { output: Some(BrokerOutput::Data(bytes)), done: false };
        },
        Message::ExitStatus { channel_id, status } => if channel_id == id {
            let mut t: String = "\r\n[process exited: ".to_owned();
            t.append(text::decimal_signed(status as i64).as_str());
            t.append("]\r\n");
            return OutputStep { output: Some(BrokerOutput::Text(t)), done: true };
        },
        Message::Error { channel_id, message: m } => if channel_id == id {
            let mut t: String = "\r\n[error: ".to_owned();
            t.append(m.as_str());
            t.append("]\r\n");
            return OutputStep { output: Some(BrokerOutput::Text(t)), done: true };
        },
        _ => {},
    }
    OutputStep { output: None, done: false }
}

/// What is done when the broker cannot be read.
pub fn broker_error_step(error: &str) -> (r: OutputStep)
    ensures
        r.done,
        r.output matches Some(BrokerOutput::Text(t)) && t@ == "\r\n[broker error: "@ + error@
            + "]\r\n"@,
{
    let mut t: String = "\r\n[broker error: ".to_owned();
    t.append(error);
    t.append("]\r\n");
    OutputStep { output: Some(BrokerOutput::Text(t)), done: true }
}

/// What goes to the socket where no terminal could be opened.
pub fn terminal_failed_text(error: &str) -> (t: String)
    ensures
        t@ == "[terminal failed: "@ + error@ + "]\r\n"@,
{
    let mut t: String = "[terminal failed: ".to_owned();
    t.append(error);
    t.append("]\r\n");
    t
}

/// The context of the error where no terminal could be opened.
pub fn connect_context(instance: &str) -> (t: String)
    ensures
        t@ == "connect running instance "@ + instance@,
{
    let mut t: String = "connect running instance ".to_owned();
    t.append(instance);
    t
}

/// A text from the socket asks for a size exactly where it is a record of the kind
/// `resize`; any other is typed.
pub proof fn lemma_asked_size(s: Seq<char>, p: TerminalResize)
    ensures
        asked_size(s, None) is None,
        asked_size(s, Some(p)) == (if (exists|rest: Seq<char>|
            s == #[trigger] ("{\"type\""@ + rest)) && p.kind@ == "resize"@ {
            Some((p.rows, p.cols))
        } else {
            None
        }),
{
    text::lemma_parts_occur(s, "{\"type\""@, s);
}

/// Whether a variable is handed on to a terminal by its name.
pub open spec fn is_handed_to_terminal(name: Seq<char>) -> bool {
    ||| name == "LANG"@
    ||| name == "LANGUAGE"@
    ||| name == "TZ"@
    ||| name == "NO_COLOR"@
    ||| name == "CLICOLOR"@
    ||| name == "CLICOLOR_FORCE"@
}

#[verifier::spinoff_prover]
#[verifier::rlimit(40)]
proof fn lemma_terminal_names(name: Seq<char>)
    ensures
        terminal_names().contains(name) <==> is_handed_to_terminal(name),
        is_handed_to_terminal(name) ==> !session::names_locale(name) && name != "TERM"@ && name
            != "COLORTERM"@,
        !session::names_locale("TERM"@) && !session::names_locale("COLORTERM"@),
        "TERM"@ != "COLORTERM"@,
{
    reveal_strlit("TERM");
    reveal_strlit("COLORTERM");
    reveal_strlit("LANG");
    reveal_strlit("LANGUAGE");
    reveal_strlit("TZ");
    reveal_strlit("NO_COLOR");
    reveal_strlit("CLICOLOR");
    reveal_strlit("CLICOLOR_FORCE");
    let names = terminal_names();
    assert(names[0] == "LANG"@ && names[1] == "LANGUAGE"@ && names[2] == "TZ"@ && names[3]
        == "NO_COLOR"@ && names[4] == "CLICOLOR"@ && names[5] == "CLICOLOR_FORCE"@);
    assert("TERM"@[0] == 'T' && "COLORTERM"@[0] == 'C' && "LANG"@[0] == 'L' && "LANGUAGE"@[0]
        == 'L' && "NO_COLOR"@[0] == 'N');
    assert("TERM"@[1] == 'E' && "TZ"@[1] == 'Z' && "COLORTERM"@[1] == 'O' && "CLICOLOR"@[1] == 'L'
        && "CLICOLOR_FORCE"@[1] == 'L');
    if names.contains(name) {
        let i = choose|i: int| 0 <= i < names.len() && names[i] == name;
        assert(0 <= i < 6);
    }
}

/// What a shell in the browser sees of the environment, name by name: its own terminal and
/// colours, the host's value of each variable that is handed on and is not empty, the
/// locale, and nothing else.
pub proof fn lemma_terminal_environment(vars: Seq<(Seq<char>, Seq<char>)>, name: Seq<char>)
    ensures
        session::lookup(env_of_terminal(vars), "TERM"@) == Some("xterm-256color"@),
        session::lookup(env_of_terminal(vars), "COLORTERM"@) == Some("truecolor"@),
        is_handed_to_terminal(name) ==> session::lookup(env_of_terminal(vars), name) == (
        match session::lookup(vars, name) {
            Some(value) => if value.len() > 0 {
                Some(value)
            } else {
                None
            },
            None => None,
        }),
        !is_handed_to_terminal(name) && !session::names_locale(name) && name != "TERM"@ && name
            != "COLORTERM"@ ==> session::lookup(env_of_terminal(vars), name) is None,
        session::names_locale(name) ==> match session::lookup(env_of_terminal(vars), name) {
            Some(value) => exists|i: int|
                0 <= i < vars.len() && #[trigger] vars[i] == (name, value) && value.len() > 0 && (
                forall|j: int|
                    0 <= j < i && (#[trigger] vars[j]).0 == name ==> vars[j].1.len() == 0),
            None => forall|i: int|
                0 <= i < vars.len() && (#[trigger] vars[i]).0 == name ==> vars[i].1.len() == 0,
        },
{
    let own = seq![("TERM"@, "xterm-256color"@), ("COLORTERM"@, "truecolor"@)];
    let named = session::named_env(vars, terminal_names());
    let base = own + named;
    lemma_terminal_names(name);
    lemma_terminal_names("TERM"@);
    lemma_lookup_behind(own, named, name);
    lemma_lookup_behind(own, named, "TERM"@);
    lemma_lookup_behind(own, named, "COLORTERM"@);
    reveal_with_fuel(session::lookup, 3);
    assert(own.skip(1)[0] == own[1]);
    assert(own.skip(1).skip(1) =~= Seq::<(Seq<char>, Seq<char>)>::empty());
    if terminal_names().contains(name) {
        session::lemma_named_variables_are_the_hosts(vars, terminal_names(), name);
    } else {
        session::lemma_unnamed_is_absent(vars, terminal_names(), name);
    }
    session::lemma_with_locale(base, vars, name);
    session::lemma_with_locale(base, vars, "TERM"@);
    session::lemma_with_locale(base, vars, "COLORTERM"@);
}

proof fn lemma_lookup_behind(
    a: Seq<(Seq<char>, Seq<char>)>,
    b: Seq<(Seq<char>, Seq<char>)>,
    name: Seq<char>,
)
    ensures
        session::lookup(a + b, name) == (match session::lookup(a, name) {
            Some(value) => Some(value),
            None => session::lookup(b, name),
        }),
    decreases a.len(),
{
    if a.len() == 0 {
        assert(a + b =~= b);
    } else {
        lemma_lookup_behind(a.skip(1), b, name);
        assert((a + b).skip(1) =~= a.skip(1) + b);
        assert((a + b)[0] == a[0]);
    }
}

} // verus!
