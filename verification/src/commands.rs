//! The message channel from the display surface: one string per user
//! action, the command up to the first space and the data after it,
//! turned into a typed command.

use vstd::prelude::*;
use crate::json::str_eq;
use crate::text::split_once;

verus! {

/// A user action, as the display surface reports it: open a URL in the
/// browser, open the settings form, or mark everything read.
#[derive(Debug)]
pub enum Command {
    OpenUrl(String),
    OpenSettings,
    MarkRead,
}

/// The mathematical value of a [`Command`].
pub enum CommandV {
    OpenUrl(Seq<char>),
    OpenSettings,
    MarkRead,
}

impl View for Command {
    type V = CommandV;

    open spec fn view(&self) -> CommandV {
        match self {
            Command::OpenUrl(u) => CommandV::OpenUrl(u@),
            Command::OpenSettings => CommandV::OpenSettings,
            Command::MarkRead => CommandV::MarkRead,
        }
    }
}

/// A message split at its first space: the command and the data. A
/// message without a space is all command, with empty data.
pub open spec fn spec_split_cmd(msg: Seq<char>) -> (Seq<char>, Seq<char>)
    decreases msg.len(),
{
    if msg.len() == 0 {
        (Seq::empty(), Seq::empty())
    } else if msg[0] == ' ' {
        (Seq::empty(), msg.skip(1))
    } else {
        let (c, d) = spec_split_cmd(msg.skip(1));
        (seq![msg[0]] + c, d)
    }
}

/// The command a message carries: `url` with the URL as data, `settings`,
/// or `mark_read`. Any other command word means nothing.
pub open spec fn spec_command(msg: Seq<char>) -> Option<CommandV> {
    let (cmd, data) = spec_split_cmd(msg);
    if cmd == "url"@ {
        Some(CommandV::OpenUrl(data))
    } else if cmd == "settings"@ {
        Some(CommandV::OpenSettings)
    } else if cmd == "mark_read"@ {
        Some(CommandV::MarkRead)
    } else {
        None
    }
}

proof fn lemma_split_cmd_at(msg: Seq<char>, c: Seq<char>, d: Seq<char>)
    requires
        msg == c + seq![' '] + d,
        forall|i: int| 0 <= i < c.len() ==> c[i] != ' ',
    ensures
        spec_split_cmd(msg) == (c, d),
    decreases c.len(),
{
    if c.len() == 0 {
        assert(msg[0] == ' ');
        assert(msg.skip(1) =~= d);
        assert(spec_split_cmd(msg).0 =~= c);
    } else {
        assert(msg[0] == c[0]);
        assert(msg.len() > 0);
        assert(msg.skip(1) =~= c.skip(1) + seq![' '] + d);
        assert forall|i: int| 0 <= i < c.skip(1).len() implies c.skip(1)[i] != ' ' by {
            assert(c.skip(1)[i] == c[i + 1]);
        }
        lemma_split_cmd_at(msg.skip(1), c.skip(1), d);
        assert(seq![c[0]] + c.skip(1) =~= c);
    }
}

proof fn lemma_split_cmd_none(msg: Seq<char>)
    requires
        forall|i: int| 0 <= i < msg.len() ==> msg[i] != ' ',
    ensures
        spec_split_cmd(msg) == (msg, Seq::<char>::empty()),
    decreases msg.len(),
{
    if msg.len() > 0 {
        assert forall|i: int| 0 <= i < msg.skip(1).len() implies msg.skip(1)[i] != ' ' by {
            assert(msg.skip(1)[i] == msg[i + 1]);
        }
        lemma_split_cmd_none(msg.skip(1));
        assert(seq![msg[0]] + msg.skip(1) =~= msg);
    }
}

/// Reads one message from the display surface. An unknown command word
/// yields nothing; the caller logs it and goes on.
pub fn parse_command(msg: &str) -> (r: Option<Command>)
    ensures
        (match spec_command(msg@) {
            Some(cv) => r matches Some(c) && c@ == cv,
            None => r is None,
        }),
{
    let (cmd, data): (String, String) = match split_once(msg) {
        Some((first, second)) => {
            proof {
                lemma_split_cmd_at(msg@, first@, second@);
            }
            (first, second)
        },
        None => {
            proof {
                lemma_split_cmd_none(msg@);
            }
            (msg.to_owned(), String::new())
        },
    };
    if str_eq(&cmd, "url") {
        Some(Command::OpenUrl(data))
    } else if str_eq(&cmd, "settings") {
        Some(Command::OpenSettings)
    } else if str_eq(&cmd, "mark_read") {
        Some(Command::MarkRead)
    } else {
        None
    }
}

} // verus!
