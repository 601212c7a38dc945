//! What the interpreter does with a line before it runs it as a command:
//! splitting it into fields and handling the built-in `cd`.

use vstd::prelude::*;
use vstd::slice::slice_subrange;
use vstd::string::StrSliceExecFns;
use crate::chars::{is_whitespace, spec_is_whitespace};
use crate::command::words_view;
use crate::token::{peek, skip_whitespace};

verus! {

/// What separates the fields of a string.
#[derive(Clone, Copy, Debug, PartialEq, Eq, Structural)]
pub enum Separator {
    /// Each whitespace character.
    Whitespace,
    /// Each `:`.
    Colon,
}

impl Separator {
    /// Whether `c` is a separator of this kind.
    pub open spec fn spec_separates(self, c: char) -> bool {
        match self {
            Separator::Whitespace => spec_is_whitespace(c),
            Separator::Colon => c == ':',
        }
    }

    /// Whether `c` is a separator of this kind.
    #[verifier::when_used_as_spec(spec_separates)]
    pub fn separates(self, c: char) -> (r: bool)
        ensures
            r == self.spec_separates(c),
    {
        match self {
            Separator::Whitespace => is_whitespace(c),
            Separator::Colon => c == ':',
        }
    }
}

/// The number of characters of `s` before its first separator.
pub open spec fn field_len(s: Seq<char>, by: Separator) -> nat
    decreases s.len(),
{
    if s.len() > 0 && !by.spec_separates(s[0]) {
        1 + field_len(s.skip(1), by)
    } else {
        0
    }
}

/// The first field ends at the first separator of `s`, or at its end.
pub proof fn lemma_field_len(s: Seq<char>, by: Separator)
    ensures
        field_len(s, by) <= s.len(),
        field_len(s, by) < s.len() ==> by.spec_separates(s[field_len(s, by) as int]),
        forall|i: int| 0 <= i < field_len(s, by) ==> !by.spec_separates(#[trigger] s[i]),
    decreases s.len(),
{
    if s.len() > 0 && !by.spec_separates(s[0]) {
        let t = s.skip(1);
        lemma_field_len(t, by);
        assert forall|i: int| 0 <= i < field_len(s, by) implies !by.spec_separates(
            #[trigger] s[i],
        ) by {
            if i > 0 {
                assert(s[i] == t[i - 1]);
            }
        }
        if field_len(s, by) < s.len() {
            assert(s[field_len(s, by) as int] == t[field_len(t, by) as int]);
        }
    }
}

/// The fields of `s`: the pieces between its separators, in order. Each
/// separator ends one field, so that `n` separators make `n + 1` fields, some
/// of which may be empty.
pub open spec fn spec_split(s: Seq<char>, by: Separator) -> Seq<Seq<char>>
    decreases s.len(),
    via spec_split_decreases
{
    let n = field_len(s, by) as int;
    if n >= s.len() {
        seq![s]
    } else {
        seq![s.take(n)] + spec_split(s.skip(n + 1), by)
    }
}

#[via_fn]
proof fn spec_split_decreases(s: Seq<char>, by: Separator) {
    lemma_field_len(s, by);
}

/// A run without separators that ends at `i`, before a separator or the
/// end of `s`, is the first field of `s`.
proof fn lemma_field_len_at(s: Seq<char>, by: Separator, i: int)
    requires
        0 <= i <= s.len(),
        forall|j: int| 0 <= j < i ==> !by.spec_separates(#[trigger] s[j]),
        i < s.len() ==> by.spec_separates(s[i]),
    ensures
        field_len(s, by) == i,
    decreases i,
{
    if i > 0 {
        let t = s.skip(1);
        assert forall|j: int| 0 <= j < i - 1 implies !by.spec_separates(#[trigger] t[j]) by {
            assert(t[j] == s[j + 1]);
        }
        lemma_field_len_at(t, by, i - 1);
    }
}

/// Splits `line` at each separator.
pub fn split<'b>(line: &'b str, by: Separator) -> (r: Vec<&'b str>)
    ensures
        words_view(r@) == spec_split(line@, by),
{
    let n: usize = line.unicode_len();
    let mut fields: Vec<&'b str> = Vec::new();
    let mut start: usize = 0;
    let mut i: usize = 0;
    assert(line@.skip(0) =~= line@);
    assert(words_view(fields@) + spec_split(line@, by) =~= spec_split(line@, by));
    while i < n
        invariant
            n == line@.len(),
            start <= i <= n,
            forall|j: int| start <= j < i ==> !by.spec_separates(#[trigger] line@[j]),
            spec_split(line@, by) == words_view(fields@) + spec_split(
                line@.skip(start as int),
                by,
            ),
        decreases n - i,
    {
        if by.separates(line.get_char(i)) {
            let field: &'b str = line.substring_char(start, i);
            let ghost before = words_view(fields@);
            let ghost rest = line@.skip(start as int);
            proof {
                assert forall|j: int| 0 <= j < i - start implies !by.spec_separates(
                    #[trigger] rest[j],
                ) by {
                    assert(rest[j] == line@[start + j]);
                }
                lemma_field_len_at(rest, by, i - start);
                assert(rest.take(i - start) =~= line@.subrange(start as int, i as int));
                assert(rest.skip(i - start + 1) =~= line@.skip(i + 1));
            }
            fields.push(field);
            proof {
                assert(words_view(fields@) =~= before.push(field@));
                assert(before.push(field@) + spec_split(line@.skip(i + 1), by) =~= before + (
                seq![field@] + spec_split(line@.skip(i + 1), by)));
            }
            start = i + 1;
        }
        i += 1;
    }
    let last: &'b str = line.substring_char(start, n);
    let ghost before = words_view(fields@);
    proof {
        let rest = line@.skip(start as int);
        assert forall|j: int| 0 <= j < n - start implies !by.spec_separates(
            #[trigger] rest[j],
        ) by {
            assert(rest[j] == line@[start + j]);
        }
        lemma_field_len_at(rest, by, n - start);
        assert(rest =~= line@.subrange(start as int, n as int));
    }
    fields.push(last);
    proof {
        assert(words_view(fields@) =~= before + seq![last@]);
    }
    fields
}

/// Splits a line at each whitespace character.
pub fn split_line<'b>(line: &'b str) -> (r: Vec<&'b str>)
    ensures
        words_view(r@) == spec_split(line@, Separator::Whitespace),
{
    split(line, Separator::Whitespace)
}

/// Whether two strings hold the same characters.
pub fn same_text(a: &str, b: &str) -> (r: bool)
    ensures
        r == (a@ == b@),
{
    let n: usize = a.unicode_len();
    if b.unicode_len() != n {
        return false;
    }
    let mut i: usize = 0;
    while i < n
        invariant
            n == a@.len(),
            n == b@.len(),
            i <= n,
            forall|j: int| 0 <= j < i ==> a@[j] == b@[j],
        decreases n - i,
    {
        if a.get_char(i) != b.get_char(i) {
            return false;
        }
        i += 1;
    }
    assert(a@ =~= b@);
    true
}

/// What a built-in command asks the interpreter to do.
#[derive(Clone, Copy, Debug, PartialEq, Eq)]
pub enum Builtin<'b> {
    /// The command is no built-in.
    NotBuiltin,
    /// `cd`: make `dir` the working directory.
    ChangeDirectory { dir: &'b str },
    /// `cd` without an argument, and no home directory is known.
    CannotChange,
}

/// The mathematical value of a `Builtin`.
pub enum BuiltinView {
    NotBuiltin,
    ChangeDirectory { dir: Seq<char> },
    CannotChange,
}

impl<'b> View for Builtin<'b> {
    type V = BuiltinView;

    open spec fn view(&self) -> BuiltinView {
        match self {
            Builtin::NotBuiltin => BuiltinView::NotBuiltin,
            Builtin::ChangeDirectory { dir } => BuiltinView::ChangeDirectory { dir: dir@ },
            Builtin::CannotChange => BuiltinView::CannotChange,
        }
    }
}

impl<'b> Builtin<'b> {
    /// Whether the line is dealt with, so that no command is to be run.
    pub open spec fn spec_handled(&self) -> bool {
        !(self is NotBuiltin)
    }

    /// Whether the line is dealt with, so that no command is to be run.
    #[verifier::when_used_as_spec(spec_handled)]
    pub fn handled(&self) -> (r: bool)
        ensures
            r == self.spec_handled(),
    {
        match self {
            Builtin::NotBuiltin => false,
            _ => true,
        }
    }
}

/// The view of an optional string.
pub open spec fn text_of(s: Option<&str>) -> Option<Seq<char>> {
    match s {
        Some(s) => Some(s@),
        None => None,
    }
}

/// `cd`: to the first argument; without one, to the home directory; without
/// either, nowhere.
pub open spec fn spec_builtin_cd(args: Seq<Seq<char>>, home: Option<Seq<char>>) -> BuiltinView {
    if args.len() > 0 {
        BuiltinView::ChangeDirectory { dir: args[0] }
    } else {
        match home {
            Some(dir) => BuiltinView::ChangeDirectory { dir },
            None => BuiltinView::CannotChange,
        }
    }
}

/// The built-in `cd` with the arguments `args`, where `home` is the home
/// directory, if one is known.
pub fn builtin_cd<'b>(args: &[&'b str], home: Option<&'b str>) -> (r: Builtin<'b>)
    ensures
        r@ == spec_builtin_cd(words_view(args@), text_of(home)),
{
    if args.len() > 0 {
        Builtin::ChangeDirectory { dir: args[0] }
    } else {
        match home {
            Some(dir) => Builtin::ChangeDirectory { dir },
            None => Builtin::CannotChange,
        }
    }
}

/// What the command `cmd` with the arguments `args` asks for, if it is a
/// built-in. `cd` is the only one.
pub open spec fn spec_process_builtin(
    cmd: Seq<char>,
    args: Seq<Seq<char>>,
    home: Option<Seq<char>>,
) -> BuiltinView {
    if cmd == "cd"@ {
        spec_builtin_cd(args, home)
    } else {
        BuiltinView::NotBuiltin
    }
}

/// Handles the command `cmd` with the arguments `args` if it is a built-in.
pub fn process_builtin<'b>(cmd: &str, args: &[&'b str], home: Option<&'b str>) -> (r: Builtin<'b>)
    ensures
        r@ == spec_process_builtin(cmd@, words_view(args@), text_of(home)),
{
    if same_text(cmd, "cd") {
        builtin_cd(args, home)
    } else {
        Builtin::NotBuiltin
    }
}

/// `s` without its trailing whitespace.
pub open spec fn trim_end(s: Seq<char>) -> Seq<char>
    decreases s.len(),
{
    if s.len() > 0 && spec_is_whitespace(s.last()) {
        trim_end(s.drop_last())
    } else {
        s
    }
}

/// `s` without its leading and trailing whitespace.
pub open spec fn spec_trim(s: Seq<char>) -> Seq<char> {
    trim_end(skip_whitespace(s))
}

/// A run of whitespace at the end of `s` that begins at `j` is all that
/// `trim_end` drops.
proof fn lemma_trim_end_at(s: Seq<char>, j: int)
    requires
        0 <= j <= s.len(),
        forall|k: int| j <= k < s.len() ==> spec_is_whitespace(#[trigger] s[k]),
        j > 0 ==> !spec_is_whitespace(s[j - 1]),
    ensures
        trim_end(s) == s.take(j),
    decreases s.len() - j,
{
    if j == s.len() {
        assert(s.take(j) =~= s);
    } else {
        let t = s.drop_last();
        assert(spec_is_whitespace(s[s.len() - 1]));
        assert forall|k: int| j <= k < t.len() implies spec_is_whitespace(#[trigger] t[k]) by {
            assert(t[k] == s[k]);
        }
        lemma_trim_end_at(t, j);
        assert(t.take(j) =~= s.take(j));
    }
}

/// `line` without its leading and trailing whitespace.
pub fn trim<'b>(line: &'b str) -> (r: &'b str)
    ensures
        r@ == spec_trim(line@),
{
    let mut rest: &'b str = line;
    let found: bool = peek(&mut rest, "");
    let mut j: usize = rest.unicode_len();
    while j > 0 && is_whitespace(rest.get_char(j - 1))
        invariant
            j <= rest@.len(),
            forall|k: int| j <= k < rest@.len() ==> spec_is_whitespace(#[trigger] rest@[k]),
        decreases j,
    {
        j -= 1;
    }
    proof {
        lemma_trim_end_at(rest@, j as int);
        assert(rest@.subrange(0, j as int) == rest@.take(j as int));
    }
    rest.substring_char(0, j)
}

/// What the interpreter does with one line of input.
#[derive(Clone, Copy, Debug, PartialEq, Eq)]
pub enum Dispatch<'b> {
    /// The line is empty: nothing is done.
    Skip,
    /// The line is a built-in, which asks for this.
    Handle { builtin: Builtin<'b> },
    /// The line is to be parsed and run in a child, which is waited for.
    Spawn,
}

/// The mathematical value of a `Dispatch`.
pub enum DispatchView {
    Skip,
    Handle { builtin: BuiltinView },
    Spawn,
}

impl<'b> View for Dispatch<'b> {
    type V = DispatchView;

    open spec fn view(&self) -> DispatchView {
        match self {
            Dispatch::Skip => DispatchView::Skip,
            Dispatch::Handle { builtin } => DispatchView::Handle { builtin: builtin@ },
            Dispatch::Spawn => DispatchView::Spawn,
        }
    }
}

/// What is done with `line`, once the whitespace at its ends is dropped:
/// nothing where it is empty; what its first field asks for where that names a
/// built-in, with the other fields as arguments; else it is run as a command.
pub open spec fn spec_process_line(line: Seq<char>, home: Option<Seq<char>>) -> DispatchView {
    let trimmed = spec_trim(line);
    if trimmed.len() == 0 {
        DispatchView::Skip
    } else {
        let fields = spec_split(trimmed, Separator::Whitespace);
        match spec_process_builtin(fields[0], fields.skip(1), home) {
            BuiltinView::NotBuiltin => DispatchView::Spawn,
            builtin => DispatchView::Handle { builtin },
        }
    }
}

/// Decides what to do with one line of input, where `home` is the home
/// directory, if one is known.
pub fn process_line<'b>(line: &'b str, home: Option<&'b str>) -> (r: Dispatch<'b>)
    ensures
        r@ == spec_process_line(line@, text_of(home)),
{
    let trimmed: &'b str = trim(line);
    if trimmed.unicode_len() == 0 {
        return Dispatch::Skip;
    }
    let fields: Vec<&'b str> = split_line(trimmed);
    proof {
        lemma_field_len(trimmed@, Separator::Whitespace);
    }
    let all: &[&'b str] = fields.as_slice();
    let args: &[&'b str] = slice_subrange(all, 1, all.len());
    assert(words_view(args@) =~= words_view(fields@).skip(1));
    let builtin: Builtin<'b> = process_builtin(fields[0], args, home);
    if builtin.handled() {
        Dispatch::Handle { builtin }
    } else {
        Dispatch::Spawn
    }
}

} // verus!
