//! The canonical text of a command tree: its fully parenthesized form, in
//! which every child of a node stands in a group of its own, with one space
//! between tokens. Parsing that text gives the tree back.

use vstd::prelude::*;
use vstd::string::StringExecFns;
use crate::chars::{is_word_char, spec_is_whitespace};
use crate::command::{is_word, words_view, Command, CommandView, RedirectMode};
use crate::grammar::{
    advance, ends_line, is_terminator, lemma_lone_pipe, lemma_lone_unit, lemma_parse_well_formed,
    redirected, spec_parse, spec_parse_backs, spec_parse_exec, spec_parse_line, spec_parse_pipe,
    spec_parse_redirs, spec_parse_words, spec_redirect_mode, wrap_redirects, RedirectView,
    SyntaxError,
};
use crate::token::{
    front_kind, front_len, lemma_operator_text, lemma_tokens_skip_whitespace, lemma_tokens_step,
    lemma_word_len_at, operator, operator_text, rest_of, skip_whitespace, spec_get_token, tokens,
    TokenKind, TokenView,
};

verus! {

/// The token of a plain word.
pub open spec fn word(text: Seq<char>) -> TokenView {
    TokenView { kind: TokenKind::Regular, text }
}

/// The tokens of an argument vector.
pub open spec fn words(argv: Seq<Seq<char>>) -> Seq<TokenView> {
    Seq::new(argv.len(), |i: int| word(argv[i]))
}

/// The operator that stands for a mode.
pub open spec fn mode_operator(mode: RedirectMode) -> TokenKind {
    match mode {
        RedirectMode::Read => TokenKind::LRedir,
        RedirectMode::WriteTruncate => TokenKind::RRedir,
        RedirectMode::WriteAppend => TokenKind::Append,
    }
}

/// The canonical tokens of a tree as a group: its line in parentheses.
pub open spec fn unit_tokens(command: CommandView) -> Seq<TokenView>
    decreases command, 1nat,
{
    seq![operator(TokenKind::LParen)] + line_tokens(command) + seq![operator(TokenKind::RParen)]
}

/// The canonical tokens of a tree as a line: the words of an `Exec`; for any
/// other node its children as groups, with the node's operator between or
/// behind them.
pub open spec fn line_tokens(command: CommandView) -> Seq<TokenView>
    decreases command, 0nat,
{
    match command {
        CommandView::Exec { argv } => words(argv),
        CommandView::Redirect { inner, target_path, mode, target_fd } => unit_tokens(*inner)
            + seq![operator(mode_operator(mode)), word(target_path)],
        CommandView::Pipe { left, right } => unit_tokens(*left) + seq![
            operator(TokenKind::Pipe),
        ] + unit_tokens(*right),
        CommandView::Sequence { left, right } => unit_tokens(*left) + seq![
            operator(TokenKind::Sequence),
        ] + unit_tokens(*right),
        CommandView::Background { inner } => unit_tokens(*inner) + seq![
            operator(TokenKind::Background),
        ],
    }
}

/// The pieces of text, with one space between each two.
pub open spec fn spaced(pieces: Seq<Seq<char>>) -> Seq<char>
    decreases pieces.len(),
{
    if pieces.len() == 0 {
        Seq::empty()
    } else if pieces.len() == 1 {
        pieces[0]
    } else {
        pieces[0] + seq![' '] + spaced(pieces.skip(1))
    }
}

/// The text of each token.
pub open spec fn texts(toks: Seq<TokenView>) -> Seq<Seq<char>> {
    Seq::new(toks.len(), |i: int| toks[i].text)
}

/// The canonical text of a tree.
pub open spec fn spec_render(command: CommandView) -> Seq<char> {
    spaced(texts(line_tokens(command)))
}

/// A token as the tokenizer could give it: a word, or an operator written as
/// operators are.
pub open spec fn writable(token: TokenView) -> bool {
    if token.kind == TokenKind::Regular {
        is_word(token.text)
    } else {
        token.text == operator_text(token.kind)
    }
}

/// A writable token, written before a space or at the end of a line, is
/// the first token that is read back, and what follows it is read next.
pub proof fn lemma_read_back(token: TokenView, tail: Seq<char>)
    requires
        writable(token),
        tail.len() == 0 || tail[0] == ' ',
    ensures
        spec_get_token(token.text + tail) == Some((token, skip_whitespace(tail))),
{
    lemma_operator_text();
    let s = token.text + tail;
    let n = token.text.len() as int;
    assert(n > 0);
    assert(s[0] == token.text[0]);
    assert(!spec_is_whitespace(s[0]));
    assert(skip_whitespace(s) == s);
    if n < s.len() {
        assert(s[n] == tail[0]);
    }
    if token.kind == TokenKind::Regular {
        assert forall|j: int| 0 <= j < n implies is_word_char(#[trigger] s[j]) by {
            assert(s[j] == token.text[j]);
        }
        lemma_word_len_at(s, n);
    } else if token.kind == TokenKind::Append {
        assert(s[1] == token.text[1]);
    }
    assert(front_kind(s) == token.kind);
    assert(front_len(s) == n);
    assert(s.take(n) =~= token.text);
    assert(s.skip(n) =~= tail);
}

/// Writing tokens with spaces between them and reading them back gives the
/// same tokens.
pub proof fn lemma_tokens_of_spaced(toks: Seq<TokenView>)
    requires
        forall|i: int| 0 <= i < toks.len() ==> writable(#[trigger] toks[i]),
    ensures
        tokens(spaced(texts(toks))) == toks,
    decreases toks.len(),
{
    let pieces = texts(toks);
    let s = spaced(pieces);
    if toks.len() == 0 {
        assert(tokens(s) =~= toks);
    } else {
        let rest = toks.skip(1);
        assert(texts(rest) =~= pieces.skip(1));
        lemma_tokens_of_spaced(rest);
        let tail = if toks.len() == 1 {
            Seq::<char>::empty()
        } else {
            seq![' '] + spaced(pieces.skip(1))
        };
        assert(s =~= toks[0].text + tail);
        lemma_read_back(toks[0], tail);
        lemma_tokens_step(s);
        lemma_tokens_skip_whitespace(tail);
        if toks.len() > 1 {
            let after = spaced(pieces.skip(1));
            assert(tail.skip(1) =~= after);
            assert(skip_whitespace(tail) == skip_whitespace(after));
            lemma_tokens_skip_whitespace(after);
        } else {
            assert(tokens(tail) =~= rest);
        }
        assert(tokens(s) =~= seq![toks[0]] + rest);
        assert(seq![toks[0]] + rest =~= toks);
    }
}

/// How an operator is written.
fn operator_str(kind: TokenKind) -> (r: &'static str)
    requires
        kind != TokenKind::Regular,
    ensures
        r@ == operator_text(kind),
{
    match kind {
        TokenKind::LRedir => "<",
        TokenKind::RRedir => ">",
        TokenKind::Append => ">>",
        TokenKind::Pipe => "|",
        TokenKind::Sequence => ";",
        TokenKind::Background => "&",
        TokenKind::LParen => "(",
        _ => ")",
    }
}

/// The operator that stands for a mode.
fn mode_kind(mode: RedirectMode) -> (r: TokenKind)
    ensures
        r == mode_operator(mode),
{
    match mode {
        RedirectMode::Read => TokenKind::LRedir,
        RedirectMode::WriteTruncate => TokenKind::RRedir,
        RedirectMode::WriteAppend => TokenKind::Append,
    }
}

/// Appends the text of an operator to `out`.
fn write_operator<'b>(kind: TokenKind, out: &mut Vec<&'b str>)
    requires
        kind != TokenKind::Regular,
    ensures
        words_view(final(out)@) == words_view(old(out)@) + texts(seq![operator(kind)]),
{
    let text: &'static str = operator_str(kind);
    out.push(text);
    assert(words_view(out@) =~= words_view(old(out)@) + texts(seq![operator(kind)]));
}

/// Appends the canonical pieces of `command` as a group to `out`.
fn write_unit<'b>(command: &Command<'b>, out: &mut Vec<&'b str>)
    ensures
        words_view(final(out)@) == words_view(old(out)@) + texts(unit_tokens(command@)),
    decreases command, 1nat,
{
    write_operator(TokenKind::LParen, out);
    write_line(command, out);
    write_operator(TokenKind::RParen, out);
    proof {
        let open = seq![operator(TokenKind::LParen)];
        let close = seq![operator(TokenKind::RParen)];
        let inside = line_tokens(command@);
        assert(texts(open + inside + close) =~= texts(open) + texts(inside) + texts(close));
        assert(words_view(out@) =~= words_view(old(out)@) + (texts(open) + texts(inside) + texts(
            close,
        )));
    }
}

/// Appends the canonical pieces of `command` as a line to `out`.
fn write_line<'b>(command: &Command<'b>, out: &mut Vec<&'b str>)
    ensures
        words_view(final(out)@) == words_view(old(out)@) + texts(line_tokens(command@)),
    decreases command, 0nat,
{
    let ghost before = words_view(out@);
    match command {
        Command::Exec { argv } => {
            let mut i: usize = 0;
            while i < argv.len()
                invariant
                    i <= argv.len(),
                    words_view(out@) == before + words_view(argv@).take(i as int),
                decreases argv.len() - i,
            {
                let ghost so_far = out@;
                out.push(argv[i]);
                assert(words_view(out@) =~= words_view(so_far).push(argv@[i as int]@));
                assert(words_view(argv@).take(i + 1) =~= words_view(argv@).take(i as int).push(
                    argv@[i as int]@,
                ));
                assert(words_view(out@) =~= before + words_view(argv@).take(i + 1));
                i += 1;
            }
            assert(words_view(argv@).take(i as int) =~= texts(words(words_view(argv@))));
        },
        Command::Redirect { inner, target_path, mode, target_fd } => {
            write_unit(inner, out);
            write_operator(mode_kind(*mode), out);
            let ghost so_far = out@;
            out.push(*target_path);
            proof {
                assert(words_view(out@) =~= words_view(so_far).push(target_path@));
                let unit = unit_tokens(inner@);
                let written = seq![operator(mode_operator(*mode)), word(target_path@)];
                assert(texts(unit + written) =~= texts(unit) + texts(
                    seq![operator(mode_operator(*mode))],
                ) + seq![target_path@]);
                assert(words_view(out@) =~= before + (texts(unit) + texts(
                    seq![operator(mode_operator(*mode))],
                ) + seq![target_path@]));
            }
        },
        Command::Pipe { left, right } => {
            write_unit(left, out);
            write_operator(TokenKind::Pipe, out);
            write_unit(right, out);
            proof {
                let first = unit_tokens(left@);
                let middle = seq![operator(TokenKind::Pipe)];
                let second = unit_tokens(right@);
                assert(texts(first + middle + second) =~= texts(first) + texts(middle) + texts(
                    second,
                ));
                assert(words_view(out@) =~= before + (texts(first) + texts(middle) + texts(
                    second,
                )));
            }
        },
        Command::Sequence { left, right } => {
            write_unit(left, out);
            write_operator(TokenKind::Sequence, out);
            write_unit(right, out);
            proof {
                let first = unit_tokens(left@);
                let middle = seq![operator(TokenKind::Sequence)];
                let second = unit_tokens(right@);
                assert(texts(first + middle + second) =~= texts(first) + texts(middle) + texts(
                    second,
                ));
                assert(words_view(out@) =~= before + (texts(first) + texts(middle) + texts(
                    second,
                )));
            }
        },
        Command::Background { inner } => {
            write_unit(inner, out);
            write_operator(TokenKind::Background, out);
            proof {
                let unit = unit_tokens(inner@);
                let last = seq![operator(TokenKind::Background)];
                assert(texts(unit + last) =~= texts(unit) + texts(last));
                assert(words_view(out@) =~= before + (texts(unit) + texts(last)));
            }
        },
    }
}

/// The pieces of text with one space between each two.
fn join_spaced(pieces: &Vec<&str>) -> (r: String)
    ensures
        r@ == spaced(words_view(pieces@)),
{
    let ghost all = words_view(pieces@);
    let n: usize = pieces.len();
    if n == 0 {
        return String::new();
    }
    let mut text: String = String::from_str(pieces[0]);
    let mut i: usize = 1;
    proof {
        reveal_strlit(" ");
        assert(" "@ =~= seq![' ']);
        assert(all.skip(0) =~= all);
    }
    while i < n
        invariant
            n == pieces@.len(),
            all == words_view(pieces@),
            1 <= i <= n,
            " "@ == seq![' '],
            spaced(all) == text@ + (if i < n {
                seq![' '] + spaced(all.skip(i as int))
            } else {
                Seq::<char>::empty()
            }),
        decreases n - i,
    {
        proof {
            let rest = all.skip(i as int);
            assert(rest[0] == pieces@[i as int]@);
            assert(rest.skip(1) =~= all.skip(i + 1));
        }
        text.append(" ");
        text.append(pieces[i]);
        i += 1;
    }
    text
}

/// Writes the canonical text of a command tree: its fully parenthesized form.
/// The text of a well-formed tree parses to that tree.
pub fn render(command: &Command<'_>) -> (r: String)
    ensures
        r@ == spec_render(command@),
        command@.well_formed() ==> spec_parse(r@) == Ok::<CommandView, SyntaxError>(command@),
{
    proof {
        if command@.well_formed() {
            render_round_trip(command@);
        }
    }
    let mut pieces: Vec<&str> = Vec::new();
    write_line(command, &mut pieces);
    assert(words_view(pieces@) =~= texts(line_tokens(command@)));
    join_spaced(&pieces)
}

/// All tokens of a sequence are writable.
pub open spec fn all_writable(toks: Seq<TokenView>) -> bool {
    forall|i: int| 0 <= i < toks.len() ==> writable(#[trigger] toks[i])
}

/// The canonical tokens of a runnable tree are writable.
pub proof fn lemma_line_tokens_writable(command: CommandView)
    requires
        command.runnable(),
    ensures
        all_writable(line_tokens(command)),
        all_writable(unit_tokens(command)),
        line_tokens(command).len() > 0,
    decreases command,
{
    match command {
        CommandView::Exec { argv } => {},
        CommandView::Redirect { inner, target_path, mode, target_fd } => {
            lemma_line_tokens_writable(*inner);
        },
        CommandView::Pipe { left, right } => {
            lemma_line_tokens_writable(*left);
            lemma_line_tokens_writable(*right);
        },
        CommandView::Sequence { left, right } => {
            lemma_line_tokens_writable(*left);
            lemma_line_tokens_writable(*right);
        },
        CommandView::Background { inner } => {
            lemma_line_tokens_writable(*inner);
        },
    }
}

/// Words before the end of a line or a terminator are the arguments of one `Exec`.
pub proof fn lemma_parse_written_words(
    argv: Seq<Seq<char>>,
    redirects: Seq<RedirectView>,
    more: Seq<Seq<char>>,
    suffix: Seq<TokenView>,
)
    requires
        suffix.len() == 0 || is_terminator(suffix[0].kind),
    ensures
        spec_parse_words(argv, redirects, words(more) + suffix) == Ok::<
            (CommandView, nat),
            SyntaxError,
        >((wrap_redirects(CommandView::Exec { argv: argv + more }, redirects), more.len())),
    decreases more.len(),
{
    let toks = words(more) + suffix;
    if more.len() == 0 {
        assert(toks =~= suffix);
        assert(argv + more =~= argv);
    } else {
        assert(toks[0] == word(more[0]));
        assert(toks.skip(1) =~= words(more.skip(1)) + suffix);
        lemma_parse_written_words(argv.push(more[0]), redirects, more.skip(1), suffix);
        assert(argv.push(more[0]) + more.skip(1) =~= argv + more);
    }
}

/// A tree written as a group parses as a unit to that tree, under the
/// redirections that follow the group.
pub proof fn lemma_parse_written_unit(command: CommandView, follow: Seq<TokenView>)
    requires
        command.runnable(),
    ensures
        spec_parse_exec(unit_tokens(command) + follow) == advance(
            spec_parse_redirs(command, follow),
            unit_tokens(command).len(),
        ),
    decreases command, 2nat,
{
    let inside = line_tokens(command);
    let toks = unit_tokens(command) + follow;
    let close = seq![operator(TokenKind::RParen)] + follow;
    let body = toks.skip(1);
    assert(toks[0] == operator(TokenKind::LParen));
    assert(body =~= inside + close);
    lemma_parse_written_line(command, close);
    assert(rest_of(body, inside.len()) =~= close);
    assert(close.skip(1) =~= follow);
}

/// A tree written as a line, before the end of that line, parses to the tree.
pub proof fn lemma_parse_written_line(command: CommandView, suffix: Seq<TokenView>)
    requires
        command.runnable(),
        ends_line(suffix),
    ensures
        spec_parse_line(line_tokens(command) + suffix) == Ok::<(CommandView, nat), SyntaxError>(
            (command, line_tokens(command).len()),
        ),
    decreases command, 1nat,
{
    match command {
        CommandView::Exec { argv } => lemma_parse_written_exec(argv, suffix),
        CommandView::Redirect { inner, target_path, mode, target_fd } => {
            lemma_parse_written_redirect(command, suffix)
        },
        CommandView::Pipe { left, right } => lemma_parse_written_pipe(command, suffix),
        CommandView::Sequence { left, right } => lemma_parse_written_sequence(command, suffix),
        CommandView::Background { inner } => lemma_parse_written_background(command, suffix),
    }
}

proof fn lemma_parse_written_exec(argv: Seq<Seq<char>>, suffix: Seq<TokenView>)
    requires
        argv.len() > 0,
        ends_line(suffix),
    ensures
        spec_parse_line(words(argv) + suffix) == Ok::<(CommandView, nat), SyntaxError>(
            (CommandView::Exec { argv }, argv.len()),
        ),
{
    let toks = words(argv) + suffix;
    assert(toks[0] == word(argv[0]));
    lemma_parse_written_words(Seq::empty(), Seq::empty(), argv, suffix);
    assert(Seq::<Seq<char>>::empty() + argv =~= argv);
    assert(rest_of(toks, argv.len()) =~= suffix);
    lemma_lone_unit(toks, CommandView::Exec { argv }, argv.len());
}

proof fn lemma_parse_written_redirect(command: CommandView, suffix: Seq<TokenView>)
    requires
        command.runnable(),
        command is Redirect,
        ends_line(suffix),
    ensures
        spec_parse_line(line_tokens(command) + suffix) == Ok::<(CommandView, nat), SyntaxError>(
            (command, line_tokens(command).len()),
        ),
    decreases command, 0nat,
{
    let toks = line_tokens(command) + suffix;
    if let CommandView::Redirect { inner, target_path, mode, target_fd } = command {
        let written = seq![operator(mode_operator(mode)), word(target_path)];
        let follow = written + suffix;
        let u = unit_tokens(*inner).len();
        assert(toks =~= unit_tokens(*inner) + follow);
        lemma_parse_written_unit(*inner, follow);
        assert(follow.skip(2) =~= suffix);
        assert(follow[0] == operator(mode_operator(mode)));
        assert(follow[1] == word(target_path));
        assert(spec_parse_redirs(command, suffix) == Ok::<(CommandView, nat), SyntaxError>(
            (command, 0),
        ));
        let redirect = RedirectView { mode: spec_redirect_mode(follow[0].kind), target_path };
        assert(redirected(*inner, redirect) == command);
        assert(spec_parse_redirs(*inner, follow) == Ok::<(CommandView, nat), SyntaxError>(
            (command, 2),
        ));
        assert(rest_of(toks, u + 2) =~= suffix);
        lemma_lone_unit(toks, command, u + 2);
    }
}

proof fn lemma_parse_written_pipe(command: CommandView, suffix: Seq<TokenView>)
    requires
        command.runnable(),
        command is Pipe,
        ends_line(suffix),
    ensures
        spec_parse_line(line_tokens(command) + suffix) == Ok::<(CommandView, nat), SyntaxError>(
            (command, line_tokens(command).len()),
        ),
    decreases command, 0nat,
{
    let toks = line_tokens(command) + suffix;
    if let CommandView::Pipe { left, right } = command {
        let ul = unit_tokens(*left).len();
        let ur = unit_tokens(*right).len();
        let second = unit_tokens(*right) + suffix;
        let follow = seq![operator(TokenKind::Pipe)] + second;
        assert(toks =~= unit_tokens(*left) + follow);
        lemma_parse_written_unit(*left, follow);
        assert(spec_parse_exec(toks) == Ok::<(CommandView, nat), SyntaxError>((*left, ul)));
        assert(rest_of(toks, ul) =~= follow);
        assert(follow.skip(1) =~= second);
        lemma_parse_written_unit(*right, suffix);
        assert(rest_of(second, ur) =~= suffix);
        lemma_lone_unit(second, *right, ur);
        assert(spec_parse_pipe(toks) == Ok::<(CommandView, nat), SyntaxError>(
            (command, ul + 1 + ur),
        ));
        assert(rest_of(toks, ul + 1 + ur) =~= suffix);
        lemma_lone_pipe(toks, command, ul + 1 + ur);
    }
}

proof fn lemma_parse_written_sequence(command: CommandView, suffix: Seq<TokenView>)
    requires
        command.runnable(),
        command is Sequence,
        ends_line(suffix),
    ensures
        spec_parse_line(line_tokens(command) + suffix) == Ok::<(CommandView, nat), SyntaxError>(
            (command, line_tokens(command).len()),
        ),
    decreases command, 0nat,
{
    let toks = line_tokens(command) + suffix;
    if let CommandView::Sequence { left, right } = command {
        let ul = unit_tokens(*left).len();
        let ur = unit_tokens(*right).len();
        let second = unit_tokens(*right) + suffix;
        let follow = seq![operator(TokenKind::Sequence)] + second;
        assert(toks =~= unit_tokens(*left) + follow);
        lemma_parse_written_unit(*left, follow);
        assert(spec_parse_exec(toks) == Ok::<(CommandView, nat), SyntaxError>((*left, ul)));
        assert(rest_of(toks, ul) =~= follow);
        assert(spec_parse_pipe(toks) == Ok::<(CommandView, nat), SyntaxError>((*left, ul)));
        assert(spec_parse_backs(*left, follow) == Ok::<(CommandView, nat), SyntaxError>(
            (*left, 0),
        ));
        assert(rest_of(toks, ul + 0) =~= follow);
        assert(follow.skip(1) =~= second);
        lemma_parse_written_unit(*right, suffix);
        assert(rest_of(second, ur) =~= suffix);
        lemma_lone_unit(second, *right, ur);
    }
}

proof fn lemma_parse_written_background(command: CommandView, suffix: Seq<TokenView>)
    requires
        command.runnable(),
        command is Background,
        ends_line(suffix),
    ensures
        spec_parse_line(line_tokens(command) + suffix) == Ok::<(CommandView, nat), SyntaxError>(
            (command, line_tokens(command).len()),
        ),
    decreases command, 0nat,
{
    let toks = line_tokens(command) + suffix;
    if let CommandView::Background { inner } = command {
        let u = unit_tokens(*inner).len();
        let follow = seq![operator(TokenKind::Background)] + suffix;
        assert(toks =~= unit_tokens(*inner) + follow);
        lemma_parse_written_unit(*inner, follow);
        assert(spec_parse_exec(toks) == Ok::<(CommandView, nat), SyntaxError>((*inner, u)));
        assert(rest_of(toks, u) =~= follow);
        assert(follow.skip(1) =~= suffix);
        assert(spec_parse_pipe(toks) == Ok::<(CommandView, nat), SyntaxError>((*inner, u)));
        assert(spec_parse_backs(command, suffix) == Ok::<(CommandView, nat), SyntaxError>(
            (command, 0),
        ));
        assert(spec_parse_backs(*inner, follow) == Ok::<(CommandView, nat), SyntaxError>(
            (command, 1),
        ));
        assert(rest_of(toks, u + 1) =~= suffix);
    }
}

/// Parsing the canonical text of a well-formed tree gives the tree back.
pub proof fn render_round_trip(command: CommandView)
    requires
        command.well_formed(),
    ensures
        spec_parse(spec_render(command)) == Ok::<CommandView, SyntaxError>(command),
{
    let toks = line_tokens(command);
    if command.runnable() {
        lemma_line_tokens_writable(command);
        lemma_tokens_of_spaced(toks);
        lemma_parse_written_line(command, Seq::empty());
        assert(toks + Seq::<TokenView>::empty() =~= toks);
    } else {
        assert(toks =~= Seq::<TokenView>::empty());
        lemma_tokens_of_spaced(toks);
    }
}

/// Parsing is idempotent through the canonical text: the text of the tree that
/// a line parses to parses to that tree again.
pub proof fn reparse_is_identity(line: Seq<char>)
    ensures
        spec_parse(line) matches Ok(command) ==> spec_parse(spec_render(command)) == Ok::<
            CommandView,
            SyntaxError,
        >(command),
{
    lemma_parse_well_formed(line);
    if let Ok(command) = spec_parse(line) {
        render_round_trip(command);
    }
}

} // verus!
