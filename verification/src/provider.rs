//! The supported history formats and the grammar each one is written in.

use vstd::prelude::*;

verus! {

/// A shell or history tool whose log format is understood.
#[derive(Debug, Clone, Copy, PartialEq, Eq, Structural)]
pub enum HistoryProvider {
    Zsh,
    Bash,
    Atuin,
    Fish,
}

/// How a log marks where one command ends and the next begins.
#[derive(Debug, Clone, Copy, PartialEq, Eq, Structural)]
pub enum Grammar {
    /// A line that ends in a backslash is continued on the next line; blank
    /// lines are filler.
    Continuation,
    /// Every line is one command, except lines that start with `#`, which
    /// carry a timestamp for the command that follows.
    CommentPrefixed,
}

/// Where the bytes of a provider's log come from.
#[derive(Debug, PartialEq, Eq)]
pub enum HistoryStream {
    /// The file of this name in the user's home directory.
    HomeFile(&'static str),
    /// The standard output of a command: the program's name, then its
    /// arguments.
    CommandOutput(Vec<&'static str>),
}

impl HistoryProvider {
    /// The provider that goes by `name`, if there is one.
    pub open spec fn named(name: Seq<char>) -> Option<HistoryProvider> {
        if name == "zsh"@ {
            Some(HistoryProvider::Zsh)
        } else if name == "bash"@ {
            Some(HistoryProvider::Bash)
        } else if name == "atuin"@ {
            Some(HistoryProvider::Atuin)
        } else if name == "fish"@ {
            Some(HistoryProvider::Fish)
        } else {
            None
        }
    }

    /// The provider for the shell called `shell`, or `None` where that shell
    /// is not supported.
    pub fn from(shell: &String) -> (provider: Option<HistoryProvider>)
        ensures
            provider == HistoryProvider::named(shell@),
    {
        if is_name(shell, "zsh") {
            Some(HistoryProvider::Zsh)
        } else if is_name(shell, "bash") {
            Some(HistoryProvider::Bash)
        } else if is_name(shell, "atuin") {
            Some(HistoryProvider::Atuin)
        } else if is_name(shell, "fish") {
            Some(HistoryProvider::Fish)
        } else {
            None
        }
    }

    /// The grammar of this provider's log.
    pub open spec fn grammar_of(self) -> Grammar {
        match self {
            HistoryProvider::Bash => Grammar::CommentPrefixed,
            HistoryProvider::Zsh | HistoryProvider::Atuin | HistoryProvider::Fish => {
                Grammar::Continuation
            },
        }
    }

    /// The name of the file in the home directory that holds this
    /// provider's log, for a provider that keeps one.
    pub open spec fn file_name(self) -> Option<&'static str> {
        match self {
            HistoryProvider::Zsh => Some(".zsh_history"),
            HistoryProvider::Bash => Some(".bash_history"),
            HistoryProvider::Atuin | HistoryProvider::Fish => None,
        }
    }

    /// The command that prints this provider's log, for a provider that is
    /// asked for it: the program's name, then its arguments.
    pub open spec fn command_line(self) -> Option<Seq<&'static str>> {
        match self {
            HistoryProvider::Atuin => Some(
                seq!["atuin", "history", "list", "--format", "{time};{command}"],
            ),
            HistoryProvider::Fish => Some(seq!["fish", "-c", "history -show-time='%s;'"]),
            HistoryProvider::Zsh | HistoryProvider::Bash => None,
        }
    }

    /// Where this provider's log is read from: a file in the home
    /// directory, or the output of a command.
    pub fn history_stream(&self) -> (stream: HistoryStream)
        ensures
            match stream {
                HistoryStream::HomeFile(name) => self.file_name() == Some(name),
                HistoryStream::CommandOutput(words) => self.command_line() == Some(words@),
            },
    {
        match self {
            HistoryProvider::Zsh => HistoryStream::HomeFile(".zsh_history"),
            HistoryProvider::Bash => HistoryStream::HomeFile(".bash_history"),
            HistoryProvider::Atuin => {
                let words = vec!["atuin", "history", "list", "--format", "{time};{command}"];
                assert(words@ =~= self.command_line()->0);
                HistoryStream::CommandOutput(words)
            },
            HistoryProvider::Fish => {
                let words = vec!["fish", "-c", "history -show-time='%s;'"];
                assert(words@ =~= self.command_line()->0);
                HistoryStream::CommandOutput(words)
            },
        }
    }

    /// The grammar of this provider's log.
    pub fn grammar(&self) -> (g: Grammar)
        ensures
            g == self.grammar_of(),
    {
        match self {
            HistoryProvider::Bash => Grammar::CommentPrefixed,
            HistoryProvider::Zsh | HistoryProvider::Atuin | HistoryProvider::Fish => {
                Grammar::Continuation
            },
        }
    }
}

/// Whether `shell` is exactly the text `name`.
fn is_name(shell: &String, name: &str) -> (same: bool)
    ensures
        same == (shell@ == name@),
{
    *shell == name.to_owned()
}

} // verus!
