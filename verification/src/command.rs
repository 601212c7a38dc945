//! The command tree that one line of input stands for.

use vstd::prelude::*;
use crate::chars::is_word_char;

verus! {

/// How the file of a redirection is opened.
#[derive(Clone, Copy, Debug, PartialEq, Eq, Structural)]
pub enum RedirectMode {
    /// `<`: read only.
    Read,
    /// `>`: write, create, truncate.
    WriteTruncate,
    /// `>>`: write, create, append.
    WriteAppend,
}

/// The descriptor that a redirection of the given mode rebinds: standard input
/// for reading, standard output for writing.
pub open spec fn spec_mode_fd(mode: RedirectMode) -> i32 {
    match mode {
        RedirectMode::Read => 0,
        _ => 1,
    }
}

/// The descriptor that a redirection of the given mode rebinds.
#[verifier::when_used_as_spec(spec_mode_fd)]
pub fn mode_fd(mode: RedirectMode) -> (fd: i32)
    ensures
        fd == spec_mode_fd(mode),
{
    match mode {
        RedirectMode::Read => 0,
        _ => 1,
    }
}

/// A command tree. Each node owns its children; the words are slices of the line.
#[derive(Debug, PartialEq, Eq)]
pub enum Command<'b> {
    /// Run one program with these arguments; with none, do nothing.
    Exec { argv: Vec<&'b str> },
    /// Rebind one descriptor to a file, then run `inner`.
    Redirect { inner: Box<Command<'b>>, target_path: &'b str, mode: RedirectMode, target_fd: i32 },
    /// Feed the output of `left` to the input of `right`.
    Pipe { left: Box<Command<'b>>, right: Box<Command<'b>> },
    /// Run `left` to its end, then `right`.
    Sequence { left: Box<Command<'b>>, right: Box<Command<'b>> },
    /// Run `inner` without waiting for it.
    Background { inner: Box<Command<'b>> },
}

/// The mathematical value of a command tree.
pub enum CommandView {
    Exec { argv: Seq<Seq<char>> },
    Redirect {
        inner: Box<CommandView>,
        target_path: Seq<char>,
        mode: RedirectMode,
        target_fd: i32,
    },
    Pipe { left: Box<CommandView>, right: Box<CommandView> },
    Sequence { left: Box<CommandView>, right: Box<CommandView> },
    Background { inner: Box<CommandView> },
}

/// The words of an argument vector as sequences of characters.
pub open spec fn words_view(argv: Seq<&str>) -> Seq<Seq<char>> {
    Seq::new(argv.len(), |i: int| argv[i]@)
}

impl<'b> Command<'b> {
    /// The value of the tree, node by node.
    pub open spec fn tree(&self) -> CommandView
        decreases self,
    {
        match self {
            Command::Exec { argv } => CommandView::Exec { argv: words_view(argv@) },
            Command::Redirect { inner, target_path, mode, target_fd } => CommandView::Redirect {
                inner: Box::new(inner.tree()),
                target_path: target_path@,
                mode: *mode,
                target_fd: *target_fd,
            },
            Command::Pipe { left, right } => CommandView::Pipe {
                left: Box::new(left.tree()),
                right: Box::new(right.tree()),
            },
            Command::Sequence { left, right } => CommandView::Sequence {
                left: Box::new(left.tree()),
                right: Box::new(right.tree()),
            },
            Command::Background { inner } => CommandView::Background {
                inner: Box::new(inner.tree()),
            },
        }
    }
}

impl<'b> Command<'b> {
    /// A copy of the tree.
    pub fn duplicate(&self) -> (r: Command<'b>)
        ensures
            r@ == self@,
        decreases self,
    {
        match self {
            Command::Exec { argv } => {
                let mut words: Vec<&'b str> = Vec::new();
                let mut i: usize = 0;
                while i < argv.len()
                    invariant
                        i <= argv.len(),
                        words@ == argv@.take(i as int),
                    decreases argv.len() - i,
                {
                    words.push(argv[i]);
                    assert(argv@.take(i as int).push(argv@[i as int]) =~= argv@.take(i + 1));
                    i += 1;
                }
                assert(argv@.take(i as int) =~= argv@);
                Command::Exec { argv: words }
            },
            Command::Redirect { inner, target_path, mode, target_fd } => Command::Redirect {
                inner: Box::new(inner.duplicate()),
                target_path: *target_path,
                mode: *mode,
                target_fd: *target_fd,
            },
            Command::Pipe { left, right } => Command::Pipe {
                left: Box::new(left.duplicate()),
                right: Box::new(right.duplicate()),
            },
            Command::Sequence { left, right } => Command::Sequence {
                left: Box::new(left.duplicate()),
                right: Box::new(right.duplicate()),
            },
            Command::Background { inner } => Command::Background {
                inner: Box::new(inner.duplicate()),
            },
        }
    }
}

impl<'b> Clone for Command<'b> {
    fn clone(&self) -> (r: Self)
        ensures
            r@ == self@,
    {
        self.duplicate()
    }
}

impl<'b> View for Command<'b> {
    type V = CommandView;

    open spec fn view(&self) -> CommandView {
        self.tree()
    }
}

/// A word: one character or more, none of them whitespace or an operator.
pub open spec fn is_word(w: Seq<char>) -> bool {
    w.len() > 0 && forall|i: int| 0 <= i < w.len() ==> is_word_char(#[trigger] w[i])
}

impl CommandView {
    /// The empty command: an `Exec` without arguments.
    pub open spec fn empty() -> CommandView {
        CommandView::Exec { argv: Seq::empty() }
    }

    /// A tree that names a program wherever it runs one: each `Exec` has at
    /// least one argument, arguments and file names are words, and each
    /// redirection rebinds the descriptor that goes with its mode.
    pub open spec fn runnable(self) -> bool
        decreases self,
    {
        match self {
            CommandView::Exec { argv } => argv.len() > 0 && forall|i: int|
                0 <= i < argv.len() ==> is_word(#[trigger] argv[i]),
            CommandView::Redirect { inner, target_path, mode, target_fd } => {
                &&& inner.runnable()
                &&& is_word(target_path)
                &&& target_fd == spec_mode_fd(mode)
            },
            CommandView::Pipe { left, right } => left.runnable() && right.runnable(),
            CommandView::Sequence { left, right } => left.runnable() && right.runnable(),
            CommandView::Background { inner } => inner.runnable(),
        }
    }

    /// The invariant of a parsed tree: it is the empty command or it is runnable.
    pub open spec fn well_formed(self) -> bool {
        self == CommandView::empty() || self.runnable()
    }
}

} // verus!
