//! Command-line and IPC-envelope handling.
//!
//! ```text
//! DesktopDrawers                       -> Manager
//! DesktopDrawers --manage              -> Manager
//! DesktopDrawers --open <drawer-id>    -> OpenDrawer
//! ```

use vstd::prelude::*;

use crate::error::Error;
use crate::text::{chars_of, push_char, same_text, string_of, trim_chars, trimmed};

verus! {

/// A parsed startup request. This is also the payload forwarded over IPC to an
/// already-running primary instance.
#[derive(Debug, Clone, PartialEq, Eq)]
pub enum Command {
    /// Open (or focus) the drawer manager.
    Manager,
    /// Open (or focus) a specific drawer by its id text.
    OpenDrawer(String),
}

/// `r` is a command-line error carrying exactly `msg`.
pub open spec fn is_bad_command_line<T>(r: Result<T, Error>, msg: Seq<char>) -> bool {
    r matches Err(Error::BadCommandLine(m)) && m@ == msg
}

/// `r` opens the drawer whose id text is `id`.
pub open spec fn opens_drawer(r: Result<Command, Error>, id: Seq<char>) -> bool {
    r matches Ok(Command::OpenDrawer(d)) && d@ == id
}

/// JSON string escaping of one character, as the envelope writer does it:
/// backslash and double quote get a backslash, everything else is kept.
pub open spec fn escape_char(c: char) -> Seq<char> {
    if c == '\\' {
        seq!['\\', '\\']
    } else if c == '"' {
        seq!['\\', '"']
    } else {
        seq![c]
    }
}

/// The escaped form of a whole text.
pub open spec fn escaped(s: Seq<char>) -> Seq<char>
    decreases s.len(),
{
    if s.len() == 0 {
        Seq::empty()
    } else {
        escape_char(s[0]) + escaped(s.drop_first())
    }
}

/// Reading escaped text back: a backslash stands for the character after it.
pub open spec fn unescaped(t: Seq<char>) -> Seq<char>
    decreases t.len(),
{
    if t.len() == 0 {
        Seq::empty()
    } else if t[0] == '\\' && t.len() >= 2 {
        seq![t[1]] + unescaped(t.subrange(2, t.len() as int))
    } else {
        seq![t[0]] + unescaped(t.drop_first())
    }
}

proof fn lemma_escaped_push(s: Seq<char>, c: char)
    ensures
        escaped(s.push(c)) == escaped(s) + escape_char(c),
    decreases s.len(),
{
    if s.len() > 0 {
        lemma_escaped_push(s.drop_first(), c);
        assert(s.push(c).drop_first() =~= s.drop_first().push(c));
        assert(escaped(s.push(c)) =~= escape_char(s[0]) + (escaped(s.drop_first()) + escape_char(c)));
    } else {
        assert(s.push(c).drop_first() =~= Seq::<char>::empty());
        assert(escaped(s.push(c)) =~= escape_char(c) + escaped(Seq::<char>::empty()));
    }
}

/// The escaping the envelope writer applies to a drawer id can be undone:
/// reading the escaped text back gives the id unchanged.
pub proof fn law_escape_reversible(s: Seq<char>)
    ensures
        unescaped(escaped(s)) == s,
    decreases s.len(),
{
    if s.len() > 0 {
        law_escape_reversible(s.drop_first());
        let e = escape_char(s[0]);
        let t = e + escaped(s.drop_first());
        if s[0] == '\\' || s[0] == '"' {
            assert(t.subrange(2, t.len() as int) =~= escaped(s.drop_first()));
        } else {
            assert(t.drop_first() =~= escaped(s.drop_first()));
        }
        assert(s =~= seq![s[0]] + s.drop_first());
    }
}

/// The IPC command name of a command.
pub open spec fn ipc_name(c: Command) -> Seq<char> {
    match c {
        Command::Manager => "open_manager"@,
        Command::OpenDrawer(_) => "open_drawer"@,
    }
}

/// The JSON envelope forwarded over the pipe for a command.
pub open spec fn ipc_envelope(c: Command) -> Seq<char> {
    match c {
        Command::Manager => "{\"command\":\"open_manager\"}"@,
        Command::OpenDrawer(id) => "{\"command\":\"open_drawer\",\"drawer_id\":\""@ + escaped(id@)
            + "\"}"@,
    }
}

/// The drawer id an envelope carries for a command, if any.
pub open spec fn ipc_drawer_id(c: Command) -> Option<Seq<char>> {
    match c {
        Command::Manager => None,
        Command::OpenDrawer(id) => Some(id@),
    }
}

/// An envelope with a `command` field and, when there is one, a `drawer_id`
/// field holding the escaped id.
pub open spec fn envelope_text(name: Seq<char>, drawer_id: Option<Seq<char>>) -> Seq<char> {
    match drawer_id {
        None => "{\"command\":\""@ + name + "\"}"@,
        Some(id) => "{\"command\":\""@ + name + "\",\"drawer_id\":\""@ + escaped(id) + "\"}"@,
    }
}

/// The two fields of a received envelope are a request: `open_manager`, or
/// `open_drawer` with a non-empty drawer id.
pub open spec fn ipc_fields_valid(command: Seq<char>, drawer_id: Option<Seq<char>>) -> bool {
    ||| command == "open_manager"@
    ||| command == "open_drawer"@ && (drawer_id matches Some(id) && id.len() > 0)
}

/// The two fields of a received envelope ask for command `c`.
pub open spec fn ipc_fields_name(command: Seq<char>, drawer_id: Option<Seq<char>>, c: Command) -> bool {
    if command == "open_manager"@ {
        c is Manager
    } else if command == "open_drawer"@ {
        &&& drawer_id matches Some(id) && id.len() > 0
        &&& c matches Command::OpenDrawer(d) && d@ == drawer_id->0
    } else {
        false
    }
}

/// The optional text's characters.
pub open spec fn opt_view(s: Option<String>) -> Option<Seq<char>> {
    match s {
        Some(t) => Some(t@),
        None => None,
    }
}

/// Writing a command into its envelope and reading the fields back gives the
/// command again: the envelope carries the command's name and, for a drawer,
/// its escaped id; the escaped id reads back as the id; and those fields ask
/// for the same command. A drawer command with an empty id is left out: its
/// envelope is read back as an error.
pub proof fn law_envelope_roundtrip(c: Command)
    requires
        c matches Command::OpenDrawer(id) ==> id@.len() > 0,
    ensures
        ipc_envelope(c) == envelope_text(ipc_name(c), ipc_drawer_id(c)),
        ipc_drawer_id(c) matches Some(id) ==> unescaped(escaped(id)) == id,
        ipc_fields_valid(ipc_name(c), ipc_drawer_id(c)),
        ipc_fields_name(ipc_name(c), ipc_drawer_id(c), c),
{
    reveal_strlit("{\"command\":\"open_manager\"}");
    reveal_strlit("{\"command\":\"open_drawer\",\"drawer_id\":\"");
    reveal_strlit("{\"command\":\"");
    reveal_strlit("\"}");
    reveal_strlit("\",\"drawer_id\":\"");
    reveal_strlit("open_manager");
    reveal_strlit("open_drawer");
    assert("open_manager"@ != "open_drawer"@) by {
        assert("open_manager"@.len() != "open_drawer"@.len());
    }
    match c {
        Command::Manager => {
            assert(ipc_envelope(c) =~= envelope_text(ipc_name(c), ipc_drawer_id(c)));
        },
        Command::OpenDrawer(id) => {
            law_escape_reversible(id@);
            assert(ipc_envelope(c) =~= envelope_text(ipc_name(c), ipc_drawer_id(c)));
        },
    }
}

impl Command {
    /// Parse from the arguments that follow the program name. Only the first
    /// two arguments are looked at.
    pub fn parse(args: &Vec<String>) -> (r: Result<Command, Error>)
        ensures
            args@.len() == 0 ==> r == Ok::<Command, Error>(Command::Manager),
            args@.len() > 0 && args@[0]@ == "--manage"@ ==> r == Ok::<Command, Error>(Command::Manager),
            args@.len() == 1 && args@[0]@ == "--open"@ ==> is_bad_command_line(
                r,
                "--open requires a drawer id"@,
            ),
            args@.len() > 1 && args@[0]@ == "--open"@ && trimmed(args@[1]@).len() == 0
                ==> is_bad_command_line(r, "--open drawer id was empty"@),
            args@.len() > 1 && args@[0]@ == "--open"@ && trimmed(args@[1]@).len() > 0 ==> opens_drawer(
                r,
                trimmed(args@[1]@),
            ),
            args@.len() > 0 && args@[0]@ != "--manage"@ && args@[0]@ != "--open"@
                ==> is_bad_command_line(r, "unknown argument: "@ + args@[0]@),
    {
        if args.len() == 0 {
            return Ok(Command::Manager);
        }
        let first = args[0].as_str();
        proof {
            reveal_strlit("--manage");
            reveal_strlit("--open");
            assert("--manage"@.len() == 8);
            assert("--open"@.len() == 6);
            assert("--manage"@ != "--open"@);
        }
        if same_text(first, "--manage") {
            Ok(Command::Manager)
        } else if same_text(first, "--open") {
            if args.len() < 2 {
                return Err(Error::BadCommandLine(String::from_str("--open requires a drawer id")));
            }
            let id = trim_chars(&chars_of(args[1].as_str()));
            if id.len() == 0 {
                return Err(Error::BadCommandLine(String::from_str("--open drawer id was empty")));
            }
            Ok(Command::OpenDrawer(string_of(&id)))
        } else {
            let mut msg = String::from_str("unknown argument: ");
            msg.append(first);
            Err(Error::BadCommandLine(msg))
        }
    }

    /// Serialize to the JSON envelope used on the IPC pipe.
    pub fn to_ipc_json(&self) -> (s: String)
        ensures
            s@ == ipc_envelope(*self),
    {
        match self {
            Command::Manager => String::from_str("{\"command\":\"open_manager\"}"),
            Command::OpenDrawer(id) => {
                let mut s = String::from_str("{\"command\":\"open_drawer\",\"drawer_id\":\"");
                let ghost prefix = s@;
                let cs = chars_of(id.as_str());
                let mut i: usize = 0;
                while i < cs.len()
                    invariant
                        i <= cs@.len(),
                        cs@ == id@,
                        s@ == prefix + escaped(cs@.subrange(0, i as int)),
                    decreases cs@.len() - i,
                {
                    let c = cs[i];
                    proof {
                        assert(cs@.subrange(0, i + 1) =~= cs@.subrange(0, i as int).push(c));
                        lemma_escaped_push(cs@.subrange(0, i as int), c);
                    }
                    if c == '\\' {
                        push_char(&mut s, '\\');
                        push_char(&mut s, '\\');
                    } else if c == '"' {
                        push_char(&mut s, '\\');
                        push_char(&mut s, '"');
                    } else {
                        push_char(&mut s, c);
                    }
                    assert(s@ =~= prefix + escaped(cs@.subrange(0, i + 1)));
                    i = i + 1;
                }
                assert(cs@.subrange(0, cs@.len() as int) =~= cs@);
                s.append("\"}");
                s
            },
        }
    }

    /// Build a command from the two fields of a received IPC envelope: its
    /// `command` name and its optional `drawer_id`.
    pub fn from_ipc_fields(command: &str, drawer_id: Option<String>) -> (r: Result<Command, Error>)
        ensures
            command@ == "open_manager"@ ==> r == Ok::<Command, Error>(Command::Manager),
            command@ == "open_drawer"@ ==> match drawer_id {
                Some(id) => if id@.len() > 0 {
                    opens_drawer(r, id@)
                } else {
                    is_bad_command_line(r, "open_drawer without drawer_id"@)
                },
                None => is_bad_command_line(r, "open_drawer without drawer_id"@),
            },
            command@ != "open_manager"@ && command@ != "open_drawer"@ ==> is_bad_command_line(
                r,
                "unknown IPC command: "@ + command@,
            ),
            r is Ok <==> ipc_fields_valid(command@, opt_view(drawer_id)),
            r matches Ok(c) ==> ipc_fields_name(command@, opt_view(drawer_id), c),
    {
        proof {
            reveal_strlit("open_manager");
            reveal_strlit("open_drawer");
            assert("open_manager"@.len() == 12);
            assert("open_drawer"@.len() == 11);
            assert("open_manager"@ != "open_drawer"@);
        }
        if same_text(command, "open_manager") {
            Ok(Command::Manager)
        } else if same_text(command, "open_drawer") {
            match drawer_id {
                Some(id) => {
                    if id.as_str().is_empty() {
                        Err(Error::BadCommandLine(String::from_str("open_drawer without drawer_id")))
                    } else {
                        Ok(Command::OpenDrawer(id))
                    }
                },
                None => Err(Error::BadCommandLine(String::from_str("open_drawer without drawer_id"))),
            }
        } else {
            let mut msg = String::from_str("unknown IPC command: ");
            msg.append(command);
            Err(Error::BadCommandLine(msg))
        }
    }
}

} // verus!
