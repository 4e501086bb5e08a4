//! The commands that are typed at the terminal while the program runs.

use crate::key_handler::ControlMessage;
use vstd::prelude::*;
use vstd::string::*;

verus! {

/// What a line typed at the terminal asks for. A line asks for everything
/// whose name it begins: `p` asks for a print, `n` for the next run, `q` to
/// quit, and an empty line for all three.
#[derive(Debug, Clone, Copy, PartialEq, Eq, Structural)]
pub struct ConsoleCommand {
    /// The state of the store is to be printed.
    pub print: bool,
    /// A new run is to begin.
    pub next: bool,
    /// The program is to stop.
    pub quit: bool,
}

/// What a line asks for.
pub open spec fn console_command_of(line: Seq<char>) -> ConsoleCommand {
    ConsoleCommand {
        print: line.is_prefix_of("print"@),
        next: line.is_prefix_of("next"@),
        quit: line.is_prefix_of("quit"@),
    }
}

/// The control messages that a command has sent: a print, then a new run.
pub open spec fn console_messages(command: ConsoleCommand) -> Seq<ControlMessage> {
    (if command.print {
        seq![ControlMessage::Print]
    } else {
        Seq::empty()
    }) + (if command.next {
        seq![ControlMessage::NewRun]
    } else {
        Seq::empty()
    })
}

/// Whether `text` begins with `start`.
pub fn starts_with(text: &str, start: &str) -> (begins: bool)
    ensures
        begins == start@.is_prefix_of(text@),
{
    let len = start.unicode_len();
    if len > text.unicode_len() {
        return false;
    }
    let mut i: usize = 0;
    while i < len
        invariant
            i <= len,
            len == start@.len(),
            len <= text@.len(),
            forall|j: int| 0 <= j < i ==> start@[j] == text@[j],
        decreases len - i,
    {
        if start.get_char(i) != text.get_char(i) {
            assert(text@.subrange(0, len as int)[i as int] != start@[i as int]);
            return false;
        }
        i += 1;
    }
    assert(start@ =~= text@.subrange(0, len as int));
    true
}

impl ConsoleCommand {
    /// Reads a command from a line, which is taken as it stands: blanks
    /// around it are to be cut off before.
    pub fn read(line: &str) -> (command: ConsoleCommand)
        ensures
            command == console_command_of(line@),
    {
        ConsoleCommand {
            print: starts_with("print", line),
            next: starts_with("next", line),
            quit: starts_with("quit", line),
        }
    }

    /// The control messages that the command has sent.
    pub fn messages(&self) -> (messages: Vec<ControlMessage>)
        ensures
            messages@ == console_messages(*self),
    {
        let mut messages: Vec<ControlMessage> = Vec::new();
        if self.print {
            messages.push(ControlMessage::Print);
        }
        if self.next {
            messages.push(ControlMessage::NewRun);
        }
        assert(messages@ =~= console_messages(*self));
        messages
    }
}

} // verus!
