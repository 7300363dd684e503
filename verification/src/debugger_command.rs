//! The commands of the debugger's prompt.

use vstd::prelude::*;
use vstd::string::*;
use crate::text::str_eq;

verus! {

/// One command, as entered at the prompt.
#[derive(Clone, Debug, PartialEq, Eq)]
pub enum DebuggerCommand {
    /// Leave the debugger.
    Quit,
    /// Start the target with these arguments.
    Run(Vec<String>),
    /// Let the stopped target run on.
    Continue,
    /// Show the call stack.
    Backtrace,
    /// Set a breakpoint at this specification.
    Breakpoint(String),
}

/// A [`DebuggerCommand`] with its texts as sequences of characters.
pub enum CommandView {
    Quit,
    Run(Seq<Seq<char>>),
    Continue,
    Backtrace,
    Breakpoint(Seq<char>),
}

impl View for DebuggerCommand {
    type V = CommandView;

    open spec fn view(&self) -> CommandView {
        match self {
            DebuggerCommand::Quit => CommandView::Quit,
            DebuggerCommand::Run(args) => CommandView::Run(args@.map_values(|a: String| a@)),
            DebuggerCommand::Continue => CommandView::Continue,
            DebuggerCommand::Backtrace => CommandView::Backtrace,
            DebuggerCommand::Breakpoint(point) => CommandView::Breakpoint(point@),
        }
    }
}

/// The command that a line of tokens spells.
///
/// The first token names the command, in full or abbreviated. `run` takes all
/// further tokens as the target's arguments; `break` takes the next token as
/// the breakpoint specification and spells nothing without one. An empty line
/// and an unknown first token spell nothing.
pub open spec fn command_in(tokens: Seq<Seq<char>>) -> Option<CommandView> {
    if tokens.len() == 0 {
        None
    } else {
        let name = tokens[0];
        if name == "q"@ || name == "quit"@ {
            Some(CommandView::Quit)
        } else if name == "r"@ || name == "run"@ {
            Some(CommandView::Run(tokens.skip(1)))
        } else if name == "c"@ || name == "continue"@ || name == "cont"@ {
            Some(CommandView::Continue)
        } else if name == "bt"@ || name == "back"@ || name == "backtrace"@ {
            Some(CommandView::Backtrace)
        } else if name == "b"@ || name == "breakpoint"@ || name == "break"@ {
            if tokens.len() >= 2 {
                Some(CommandView::Breakpoint(tokens[1]))
            } else {
                None
            }
        } else {
            None
        }
    }
}

impl DebuggerCommand {
    /// Recognises the command in a line that has been split into tokens.
    pub fn from_tokens(tokens: &Vec<&str>) -> (r: Option<DebuggerCommand>)
        ensures
            match command_in(tokens@.map_values(|t: &str| t@)) {
                Some(command) => r is Some && r->0@ == command,
                None => r is None,
            },
    {
        let ghost texts = tokens@.map_values(|t: &str| t@);
        if tokens.len() == 0 {
            return None;
        }
        let name = tokens[0];
        assert(texts[0] == name@);
        if str_eq(name, "q") || str_eq(name, "quit") {
            Some(DebuggerCommand::Quit)
        } else if str_eq(name, "r") || str_eq(name, "run") {
            let mut args: Vec<String> = Vec::new();
            let mut i: usize = 1;
            while i < tokens.len()
                invariant
                    1 <= i <= tokens@.len(),
                    texts == tokens@.map_values(|t: &str| t@),
                    args@.len() == i - 1,
                    forall|k: int| 0 <= k < args@.len() ==> (#[trigger] args@[k])@ == texts[k + 1],
                decreases tokens@.len() - i,
            {
                assert(texts[i as int] == tokens@[i as int]@);
                args.push(tokens[i].to_owned());
                i += 1;
            }
            assert(args@.map_values(|a: String| a@) =~= texts.skip(1));
            Some(DebuggerCommand::Run(args))
        } else if str_eq(name, "c") || str_eq(name, "continue") || str_eq(name, "cont") {
            Some(DebuggerCommand::Continue)
        } else if str_eq(name, "bt") || str_eq(name, "back") || str_eq(name, "backtrace") {
            Some(DebuggerCommand::Backtrace)
        } else if str_eq(name, "b") || str_eq(name, "breakpoint") || str_eq(name, "break") {
            if tokens.len() >= 2 {
                assert(texts[1] == tokens@[1]@);
                Some(DebuggerCommand::Breakpoint(tokens[1].to_owned()))
            } else {
                None
            }
        } else {
            None
        }
    }
}

} // verus!
