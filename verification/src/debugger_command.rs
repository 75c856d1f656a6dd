//! The commands of the session and the lines that spell them.

use crate::error::Error;
use crate::text::texts;
use vstd::prelude::*;
use vstd::string::{StrSliceExecFns, StringExecFns};

verus! {

/// A command of the session.
#[derive(Debug)]
pub enum DebuggerCommand {
    /// Leave the debugger.
    Quit,
    /// Start the target, with these arguments.
    Run(Vec<String>),
    /// Let the stopped target run on.
    Continue,
    /// Show the call stack of the stopped target.
    BackTrace,
    /// Set a breakpoint where this text says.
    Breakpoint(String),
}

/// A command, with its texts as sequences of characters.
pub enum CommandView {
    Quit,
    Run(Seq<Seq<char>>),
    Continue,
    BackTrace,
    Breakpoint(Seq<char>),
}

impl View for DebuggerCommand {
    type V = CommandView;

    open spec fn view(&self) -> CommandView {
        match self {
            DebuggerCommand::Quit => CommandView::Quit,
            DebuggerCommand::Run(args) => CommandView::Run(texts(args@)),
            DebuggerCommand::Continue => CommandView::Continue,
            DebuggerCommand::BackTrace => CommandView::BackTrace,
            DebuggerCommand::Breakpoint(spec) => CommandView::Breakpoint(spec@),
        }
    }
}

/// Whether `c` is white space: a character with the Unicode property
/// `White_Space`.
pub open spec fn is_space(c: char) -> bool {
    let u = c as u32;
    ||| 0x09 <= u <= 0x0d
    ||| u == 0x20
    ||| u == 0x85
    ||| u == 0xa0
    ||| u == 0x1680
    ||| 0x2000 <= u <= 0x200a
    ||| u == 0x2028
    ||| u == 0x2029
    ||| u == 0x202f
    ||| u == 0x205f
    ||| u == 0x3000
}

/// The words of a line: its longest runs of characters that are not white
/// space, in their order.
pub open spec fn words(line: Seq<char>) -> Seq<Seq<char>>
    decreases line.len(),
{
    if line.len() == 0 {
        Seq::empty()
    } else if is_space(line.last()) {
        words(line.drop_last())
    } else if line.len() >= 2 && !is_space(line[line.len() - 2]) {
        let before = words(line.drop_last());
        before.drop_last().push(before.last().push(line.last()))
    } else {
        words(line.drop_last()).push(seq![line.last()])
    }
}

/// The command that a sequence of words spells, if it spells one.
///
/// The first word names the command, in full or by a short form. `run`
/// takes all further words as the target's arguments, `break` takes the
/// next word as the place of the breakpoint and must have one.
pub open spec fn command_of(tokens: Seq<Seq<char>>) -> Option<CommandView> {
    if tokens.len() == 0 {
        None
    } else {
        let name = tokens[0];
        if name == "q"@ || name == "quit"@ {
            Some(CommandView::Quit)
        } else if name == "r"@ || name == "run"@ {
            Some(CommandView::Run(tokens.skip(1)))
        } else if name == "c"@ || name == "cont"@ || name == "continue"@ {
            Some(CommandView::Continue)
        } else if name == "bt"@ || name == "back"@ || name == "backtrace"@ {
            Some(CommandView::BackTrace)
        } else if (name == "b"@ || name == "break"@) && tokens.len() >= 2 {
            Some(CommandView::Breakpoint(tokens[1]))
        } else {
            None
        }
    }
}

/// What a line of the user asks for: nothing, if the line is blank; a
/// command; or an error, if its words spell none.
pub open spec fn line_meaning(line: Seq<char>) -> Result<Option<CommandView>, Error> {
    if words(line).len() == 0 {
        Ok(None)
    } else {
        match command_of(words(line)) {
            Some(command) => Ok(Some(command)),
            None => Err(Error::CommandParse),
        }
    }
}

/// Whether `c` is white space.
pub fn is_whitespace(c: char) -> (space: bool)
    ensures
        space == is_space(c),
{
    let u: u32 = c as u32;
    (0x09 <= u && u <= 0x0d) || u == 0x20 || u == 0x85 || u == 0xa0 || u == 0x1680 || (0x2000 <= u
        && u <= 0x200a) || u == 0x2028 || u == 0x2029 || u == 0x202f || u == 0x205f || u == 0x3000
}

/// Splits a line into its words.
pub fn split_words(line: &str) -> (tokens: Vec<String>)
    ensures
        texts(tokens@) == words(line@),
{
    let len = line.unicode_len();
    let mut tokens: Vec<String> = Vec::new();
    let mut start: usize = 0;
    let mut in_word = false;
    let mut i: usize = 0;
    while i < len
        invariant
            i <= len,
            len == line@.len(),
            in_word ==> start < i && !is_space(line@[i - 1]),
            !in_word ==> i == 0 || is_space(line@[i - 1]),
            words(line@.take(i as int)) =~= if in_word {
                texts(tokens@).push(line@.subrange(start as int, i as int))
            } else {
                texts(tokens@)
            },
        decreases len - i,
    {
        let c = line.get_char(i);
        let space = is_whitespace(c);
        let ghost prefix = line@.take(i as int);
        let ghost longer = line@.take(i + 1);
        assert(longer.drop_last() == prefix);
        if space {
            if in_word {
                tokens.push(String::from_str(line.substring_char(start, i)));
                in_word = false;
            }
        } else {
            if in_word {
                assert(line@.subrange(start as int, i as int).push(c) =~= line@.subrange(
                    start as int,
                    i + 1,
                ));
            } else {
                start = i;
                in_word = true;
                assert(seq![c] =~= line@.subrange(i as int, i + 1));
            }
        }
        i += 1;
    }
    assert(line@.take(i as int) == line@);
    if in_word {
        tokens.push(String::from_str(line.substring_char(start, len)));
    }
    tokens
}

/// Whether `token` is the word `word`.
fn spells(token: &String, word: &str) -> (same: bool)
    ensures
        same == (token@ == word@),
{
    *token == String::from_str(word)
}

impl DebuggerCommand {
    /// The command that `tokens` spell, if they spell one.
    pub fn from_tokens(tokens: &Vec<String>) -> (command: Option<DebuggerCommand>)
        ensures
            command is Some <==> command_of(texts(tokens@)) is Some,
            command matches Some(c) ==> command_of(texts(tokens@)) == Some(c@),
    {
        if tokens.len() == 0 {
            return None;
        }
        let name = &tokens[0];
        if spells(name, "q") || spells(name, "quit") {
            Some(DebuggerCommand::Quit)
        } else if spells(name, "r") || spells(name, "run") {
            let mut args: Vec<String> = Vec::new();
            let mut i: usize = 1;
            while i < tokens.len()
                invariant
                    1 <= i <= tokens@.len(),
                    texts(args@) =~= texts(tokens@).subrange(1, i as int),
                decreases tokens@.len() - i,
            {
                let arg = tokens[i].clone();
                proof {
                    assert(texts(args@.push(arg)) =~= texts(args@).push(arg@));
                }
                args.push(arg);
                i += 1;
            }
            Some(DebuggerCommand::Run(args))
        } else if spells(name, "c") || spells(name, "cont") || spells(name, "continue") {
            Some(DebuggerCommand::Continue)
        } else if spells(name, "bt") || spells(name, "back") || spells(name, "backtrace") {
            Some(DebuggerCommand::BackTrace)
        } else if (spells(name, "b") || spells(name, "break")) && tokens.len() >= 2 {
            Some(DebuggerCommand::Breakpoint(tokens[1].clone()))
        } else {
            None
        }
    }

    /// Reads a line of the user.
    pub fn parse(line: &str) -> (meaning: Result<Option<DebuggerCommand>, Error>)
        ensures
            match meaning {
                Ok(None) => line_meaning(line@) == Ok::<Option<CommandView>, Error>(None),
                Ok(Some(command)) => line_meaning(line@) == Ok::<Option<CommandView>, Error>(
                    Some(command@),
                ),
                Err(e) => line_meaning(line@) == Err::<Option<CommandView>, Error>(e),
            },
    {
        let tokens = split_words(line);
        if tokens.len() == 0 {
            return Ok(None);
        }
        match DebuggerCommand::from_tokens(&tokens) {
            Some(command) => Ok(Some(command)),
            None => Err(Error::CommandParse),
        }
    }
}

} // verus!
