//! Command-line configuration of the to-do tool.
use vstd::prelude::*;

use crate::error::Error;
use crate::text::{join_text, joined_by, split_words, trim, trim_of, views, words_of};

verus! {

/// What the command line asks for.
#[derive(Clone, Copy, Debug, PartialEq, Eq, Structural)]
pub enum Action {
    Show,
    Add,
    Help,
    Edit,
}

/// The action a command word names; no word at all means `help`.
pub open spec fn action_of(word: Seq<char>) -> Option<Action> {
    if word == "add"@ {
        Some(Action::Add)
    } else if word == "show"@ {
        Some(Action::Show)
    } else if word == "edit"@ {
        Some(Action::Edit)
    } else if word == "help"@ || word.len() == 0 {
        Some(Action::Help)
    } else {
        None
    }
}

fn same_text(a: &str, b: &str) -> (r: bool)
    ensures
        r == (a@ == b@),
{
    a.to_owned() == b.to_owned()
}

impl Action {
    /// Parses a command word; an unknown word is an `InvalidCommand` error
    /// that carries it.
    pub fn parse(word: &str) -> (r: Result<Action, Error>)
        ensures
            action_of(word@) is Some ==> r == Ok::<Action, Error>(action_of(word@)->Some_0),
            action_of(word@) is None ==> match r {
                Err(Error::InvalidCommand(w)) => w@ == word@,
                _ => false,
            },
    {
        if same_text(word, "add") {
            Ok(Action::Add)
        } else if same_text(word, "show") {
            Ok(Action::Show)
        } else if same_text(word, "edit") {
            Ok(Action::Edit)
        } else if same_text(word, "help") || word.is_empty() {
            Ok(Action::Help)
        } else {
            Err(Error::InvalidCommand(word.to_owned()))
        }
    }
}

/// The commands of the plain file-appending tool.
#[derive(Clone, Copy, Debug, PartialEq, Eq, Structural)]
pub enum Command {
    Show,
    Add,
    Help,
}

impl Command {
    /// Parses a command word; an unknown one is an `InvalidArgument` error.
    pub fn parse(word: &str) -> (r: Result<Command, Error>)
        ensures
            word@ == "add"@ ==> r == Ok::<Command, Error>(Command::Add),
            word@ == "show"@ ==> r == Ok::<Command, Error>(Command::Show),
            word@ == "help"@ ==> r == Ok::<Command, Error>(Command::Help),
            word@ != "add"@ && word@ != "show"@ && word@ != "help"@ ==> match r {
                Err(Error::InvalidArgument(w)) => w@ == word@,
                _ => false,
            },
    {
        proof {
            reveal_strlit("add");
            reveal_strlit("show");
            reveal_strlit("help");
            assert("show"@ != "add"@) by {
                assert("show"@.len() != "add"@.len());
            }
            assert("help"@ != "add"@) by {
                assert("help"@.len() != "add"@.len());
            }
            assert("help"@ != "show"@) by {
                assert("help"@[0] != "show"@[0]);
            }
        }
        if same_text(word, "add") {
            Ok(Command::Add)
        } else if same_text(word, "show") {
            Ok(Command::Show)
        } else if same_text(word, "help") {
            Ok(Command::Help)
        } else {
            Err(Error::InvalidArgument(word.to_owned()))
        }
    }
}

/// The action word of an argument list: the second argument, or nothing.
pub open spec fn command_word(args: Seq<String>) -> Seq<char> {
    if args.len() > 1 {
        args[1]@
    } else {
        Seq::empty()
    }
}

/// The texts of a list of arguments.
pub open spec fn words(args: Seq<String>) -> Seq<Seq<char>> {
    args.map_values(|a: String| a@)
}

/// Whether the file setting is missing or blank.
pub open spec fn unset(f: Option<String>) -> bool {
    f is None || trim_of(f->Some_0@).len() == 0
}

/// The name of the file used when none is configured, in the home directory.
pub open spec fn default_file_suffix() -> Seq<char> {
    "/friday.md"@
}

/// Relies on `dirs::home_dir`: the user's home directory, if it can be found.
/// What it is depends on the environment, so nothing is stated of it.
#[verifier::external_body]
fn home_dir() -> (r: Option<String>) {
    dirs::home_dir().map(|p| p.to_string_lossy().into_owned())
}

/// The configuration of one run of the tool.
#[derive(Clone, Debug, PartialEq, Eq)]
pub struct Config {
    pub action: Action,
    pub input: Option<String>,
    pub file: String,
}

impl Config {
    /// Reads the configuration from the arguments (the first is the program's
    /// name, the second the action, the rest the input, joined by spaces), the
    /// value of `FRIDAY_FILE` if set, and the home directory if known: a blank
    /// `FRIDAY_FILE` means `friday.md` in the home directory.
    pub fn build_with_home(args: &Vec<String>, friday_file: Option<String>, home: Option<String>) -> (r: Result<Config, Error>)
        ensures
            action_of(command_word(args@)) is None ==> match r {
                Err(Error::InvalidCommand(w)) => w@ == command_word(args@),
                _ => false,
            },
            action_of(command_word(args@)) is Some && unset(friday_file) && home is None
                ==> is_invalid_argument_msg(r, "failed to get users home dir"@),
            action_of(command_word(args@)) is Some && !(unset(friday_file) && home is None) ==> r is Ok,
            r is Ok ==> r->Ok_0.action == action_of(command_word(args@))->Some_0,
            r is Ok && args@.len() <= 2 ==> r->Ok_0.input is None,
            r is Ok && args@.len() > 2 ==> r->Ok_0.input is Some && r->Ok_0.input->Some_0@ == joined_by(
                words(args@.subrange(2, args@.len() as int)),
                " "@,
            ),
            r is Ok && !unset(friday_file) ==> r->Ok_0.file@ == friday_file->Some_0@,
            r is Ok && unset(friday_file) ==> r->Ok_0.file@ == home->Some_0@ + default_file_suffix(),
    {
        proof {
            reveal_strlit("");
        }
        let word: &str = if args.len() > 1 { args[1].as_str() } else { "" };
        assert(word@ == command_word(args@));
        let action = match Action::parse(word) {
            Ok(a) => a,
            Err(e) => return Err(e),
        };
        let input = if args.len() > 2 {
            let mut acc = args[2].clone();
            let mut i: usize = 3;
            let ghost ws = words(args@);
            proof {
                assert(ws.subrange(2, 3).drop_last() =~= Seq::<Seq<char>>::empty());
            }
            while i < args.len()
                invariant
                    3 <= i <= args@.len(),
                    ws == words(args@),
                    acc@ == joined_by(ws.subrange(2, i as int), " "@),
                decreases args@.len() - i,
            {
                let spaced = join_text(acc.as_str(), " ");
                acc = join_text(spaced.as_str(), args[i].as_str());
                proof {
                    assert(ws.subrange(2, i + 1).drop_last() =~= ws.subrange(2, i as int));
                }
                i = i + 1;
            }
            proof {
                assert(ws.subrange(2, args@.len() as int) =~= words(args@.subrange(2, args@.len() as int)));
            }
            Some(acc)
        } else {
            None
        };
        let file = match friday_file {
            Some(f) => {
                if trim(f.as_str()).is_empty() {
                    match home {
                        Some(h) => join_text(h.as_str(), "/friday.md"),
                        None => return Err(Error::InvalidArgument("failed to get users home dir".to_owned())),
                    }
                } else {
                    f
                }
            },
            None => match home {
                Some(h) => join_text(h.as_str(), "/friday.md"),
                None => return Err(Error::InvalidArgument("failed to get users home dir".to_owned())),
            },
        };
        Ok(Config { action, input, file })
    }

    /// Reads the configuration as `build_with_home` does, asking the system
    /// for the home directory.
    pub fn build(args: &Vec<String>, friday_file: Option<String>) -> (r: Result<Config, Error>)
        ensures
            ({
                let word = if args@.len() > 1 { args@[1]@ } else { Seq::<char>::empty() };
                &&& action_of(word) is None ==> r is Err
                &&& r is Ok ==> r->Ok_0.action == action_of(word)->Some_0
                &&& (r is Ok && friday_file is Some && trim_of(friday_file->Some_0@).len() != 0) ==> r->Ok_0.file@ == friday_file->Some_0@
                &&& (action_of(word) is Some && friday_file is Some && trim_of(friday_file->Some_0@).len() != 0) ==> r is Ok
            }),
    {
        let home = home_dir();
        Config::build_with_home(args, friday_file, home)
    }
}

/// The program and arguments that open the file for editing, read from the
/// `EDITOR` setting (which may carry arguments, as in `code -w`); a blank
/// setting means `vi`.
pub fn editor_command(editor: &str) -> (r: Vec<String>)
    ensures
        trim_of(editor@).len() == 0 ==> views(r@) == seq!["vi"@],
        trim_of(editor@).len() != 0 ==> views(r@) == words_of(editor@),
{
    if trim(editor).is_empty() {
        let mut r: Vec<String> = Vec::new();
        r.push("vi".to_owned());
        assert(views(r@) =~= seq!["vi"@]);
        r
    } else {
        split_words(editor)
    }
}

/// The help text of the command-line tool.
pub fn help_text() -> &'static str {
    "This binary let's you manage stuff to do on fridays.\n\nThe following commands are available:\n    help            -> Print this help text.\n    add <string>    -> Add a string to the end of the file.\n    show            -> Show the contents of the file.\n    edit            -> Open the file in $EDITOR.\n\nThe location of the file that should be used can be configured\nglobally using the `FRIDAY_FILE` env var.\n"
}

/// Whether `r` is an `InvalidArgument` error with exactly this message.
pub open spec fn is_invalid_argument_msg<T>(r: Result<T, Error>, message: Seq<char>) -> bool {
    match r {
        Err(Error::InvalidArgument(m)) => m@ == message,
        _ => false,
    }
}

} // verus!
