//! The grammar of a command line, as functions from a token sequence to the
//! tree it stands for and the number of tokens used, or to a syntax error.
//!
//! ```text
//! line  := pipe ( '&' pipe? )* ( ';' line )?
//! pipe  := unit ( '|' pipe )?
//! unit  := block | exec
//! exec  := word ( word | redir )*
//! block := '(' line ')' redir*
//! redir := ( '<' | '>' | '>>' ) word
//! ```

use vstd::prelude::*;
use crate::command::{is_word, spec_mode_fd, CommandView, RedirectMode};
use crate::token::{lemma_tokens_well_lexed, rest_of, tokens, well_lexed, TokenKind, TokenView};

verus! {

/// Why a line is not a command.
#[derive(Clone, Copy, Debug, PartialEq, Eq, Structural)]
pub enum SyntaxError {
    /// A token that cannot stand where it does: a `(` behind the words of a
    /// command, or anything but `(` where a group must begin.
    UnexpectedToken,
    /// A group is not closed by `)`.
    MissingCloseParen,
    /// A redirection operator is not followed by a word.
    MissingRedirectTarget,
    /// Input is left behind a complete command.
    TrailingInput,
    /// A command must begin, and an operator stands there or the line ends.
    StrayOperator,
}

impl SyntaxError {
    /// What is wrong, in words.
    pub open spec fn spec_describe(&self) -> Seq<char> {
        match self {
            SyntaxError::UnexpectedToken => "unexpected token"@,
            SyntaxError::MissingCloseParen => "missing )"@,
            SyntaxError::MissingRedirectTarget => "missing file for redirection"@,
            SyntaxError::TrailingInput => "trailing input"@,
            SyntaxError::StrayOperator => "stray operator"@,
        }
    }

    /// What is wrong, in words.
    pub fn describe(&self) -> (r: &'static str)
        ensures
            r@ == self.spec_describe(),
    {
        match self {
            SyntaxError::UnexpectedToken => "unexpected token",
            SyntaxError::MissingCloseParen => "missing )",
            SyntaxError::MissingRedirectTarget => "missing file for redirection",
            SyntaxError::TrailingInput => "trailing input",
            SyntaxError::StrayOperator => "stray operator",
        }
    }
}

/// A redirection as it is written: the mode of its operator and its file.
pub struct RedirectView {
    pub mode: RedirectMode,
    pub target_path: Seq<char>,
}

/// What a grammar rule yields: the tree and the number of tokens it spans.
pub type Parsed = Result<(CommandView, nat), SyntaxError>;

/// The redirection operators: `<`, `>`, `>>`.
pub open spec fn is_redirect(kind: TokenKind) -> bool {
    kind == TokenKind::LRedir || kind == TokenKind::RRedir || kind == TokenKind::Append
}

/// The tokens that end a pipeline stage: `|`, `)`, `&`, `;`.
pub open spec fn is_terminator(kind: TokenKind) -> bool {
    kind == TokenKind::Pipe || kind == TokenKind::RParen || kind == TokenKind::Background || kind
        == TokenKind::Sequence
}

/// The mode that a redirection operator stands for: reading for `<`,
/// appending for `>>`, truncating for `>`, as for any other token.
pub open spec fn spec_redirect_mode(kind: TokenKind) -> RedirectMode {
    match kind {
        TokenKind::LRedir => RedirectMode::Read,
        TokenKind::Append => RedirectMode::WriteAppend,
        _ => RedirectMode::WriteTruncate,
    }
}

/// `inner` under one redirection.
pub open spec fn redirected(inner: CommandView, redirect: RedirectView) -> CommandView {
    CommandView::Redirect {
        inner: Box::new(inner),
        target_path: redirect.target_path,
        mode: redirect.mode,
        target_fd: spec_mode_fd(redirect.mode),
    }
}

/// `inner` under the given redirections, the first innermost.
pub open spec fn wrap_redirects(inner: CommandView, redirects: Seq<RedirectView>) -> CommandView
    decreases redirects.len(),
{
    if redirects.len() == 0 {
        inner
    } else {
        redirected(wrap_redirects(inner, redirects.drop_last()), redirects.last())
    }
}

/// `parsed` with `n` more tokens used.
pub open spec fn advance(parsed: Parsed, n: nat) -> Parsed {
    match parsed {
        Ok((command, used)) => Ok((command, used + n)),
        Err(e) => Err(e),
    }
}

/// `redir*` behind `inner`: each redirection wraps what was built before it.
pub open spec fn spec_parse_redirs(inner: CommandView, toks: Seq<TokenView>) -> Parsed
    decreases toks.len(),
{
    if toks.len() > 0 && is_redirect(toks[0].kind) {
        if toks.len() > 1 && toks[1].kind == TokenKind::Regular {
            let redirect = RedirectView {
                mode: spec_redirect_mode(toks[0].kind),
                target_path: toks[1].text,
            };
            advance(spec_parse_redirs(redirected(inner, redirect), toks.skip(2)), 2)
        } else {
            Err(SyntaxError::MissingRedirectTarget)
        }
    } else {
        Ok((inner, 0))
    }
}

/// `( word | redir )*` behind the words `argv` and the redirections
/// `redirects`, up to the end of the line or a terminator: an `Exec` of all the
/// words under all the redirections.
pub open spec fn spec_parse_words(
    argv: Seq<Seq<char>>,
    redirects: Seq<RedirectView>,
    toks: Seq<TokenView>,
) -> Parsed
    decreases toks.len(),
{
    if toks.len() == 0 || is_terminator(toks[0].kind) {
        Ok((wrap_redirects(CommandView::Exec { argv }, redirects), 0))
    } else if toks[0].kind == TokenKind::Regular {
        advance(spec_parse_words(argv.push(toks[0].text), redirects, toks.skip(1)), 1)
    } else if is_redirect(toks[0].kind) {
        if toks.len() > 1 && toks[1].kind == TokenKind::Regular {
            let redirect = RedirectView {
                mode: spec_redirect_mode(toks[0].kind),
                target_path: toks[1].text,
            };
            advance(spec_parse_words(argv, redirects.push(redirect), toks.skip(2)), 2)
        } else {
            Err(SyntaxError::MissingRedirectTarget)
        }
    } else {
        Err(SyntaxError::UnexpectedToken)
    }
}

/// `line`.
pub open spec fn spec_parse_line(toks: Seq<TokenView>) -> Parsed
    decreases toks.len(), 4nat,
{
    match spec_parse_pipe(toks) {
        Err(e) => Err(e),
        Ok((first, n)) => match spec_parse_backs(first, rest_of(toks, n)) {
            Err(e) => Err(e),
            Ok((left, m)) => {
                let rest = rest_of(toks, n + m);
                if rest.len() > 0 && rest[0].kind == TokenKind::Sequence {
                    match spec_parse_line(rest.skip(1)) {
                        Err(e) => Err(e),
                        Ok((right, k)) => Ok(
                            (
                                CommandView::Sequence {
                                    left: Box::new(left),
                                    right: Box::new(right),
                                },
                                n + m + 1 + k,
                            ),
                        ),
                    }
                } else {
                    Ok((left, n + m))
                }
            },
        },
    }
}

/// `( '&' pipe? )*` behind `left`: each `&` puts what was built before it in
/// the background, and a pipeline behind an `&` runs after that.
pub open spec fn spec_parse_backs(left: CommandView, toks: Seq<TokenView>) -> Parsed
    decreases toks.len(), 3nat,
{
    if toks.len() > 0 && toks[0].kind == TokenKind::Background {
        let back = CommandView::Background { inner: Box::new(left) };
        let rest = toks.skip(1);
        if rest.len() == 0 || rest[0].kind == TokenKind::Background || rest[0].kind
            == TokenKind::Sequence || rest[0].kind == TokenKind::RParen {
            advance(spec_parse_backs(back, rest), 1)
        } else {
            match spec_parse_pipe(rest) {
                Err(e) => Err(e),
                Ok((next, n)) => advance(
                    spec_parse_backs(
                        CommandView::Sequence { left: Box::new(back), right: Box::new(next) },
                        rest_of(rest, n),
                    ),
                    1 + n,
                ),
            }
        }
    } else {
        Ok((left, 0))
    }
}

/// `pipe`: right-associative.
pub open spec fn spec_parse_pipe(toks: Seq<TokenView>) -> Parsed
    decreases toks.len(), 2nat,
{
    match spec_parse_exec(toks) {
        Err(e) => Err(e),
        Ok((left, n)) => {
            let rest = rest_of(toks, n);
            if rest.len() > 0 && rest[0].kind == TokenKind::Pipe {
                match spec_parse_pipe(rest.skip(1)) {
                    Err(e) => Err(e),
                    Ok((right, m)) => Ok(
                        (
                            CommandView::Pipe { left: Box::new(left), right: Box::new(right) },
                            n + 1 + m,
                        ),
                    ),
                }
            } else {
                Ok((left, n))
            }
        },
    }
}

/// `unit`: a group where the first token is `(`, else a command, which must
/// begin with a word.
pub open spec fn spec_parse_exec(toks: Seq<TokenView>) -> Parsed
    decreases toks.len(), 1nat,
{
    if toks.len() > 0 && toks[0].kind == TokenKind::LParen {
        spec_parse_block(toks)
    } else if toks.len() > 0 && toks[0].kind == TokenKind::Regular {
        spec_parse_words(Seq::empty(), Seq::empty(), toks)
    } else {
        Err(SyntaxError::StrayOperator)
    }
}

/// `block`.
pub open spec fn spec_parse_block(toks: Seq<TokenView>) -> Parsed
    decreases toks.len(), 0nat,
{
    if toks.len() > 0 && toks[0].kind == TokenKind::LParen {
        let body = toks.skip(1);
        match spec_parse_line(body) {
            Err(e) => Err(e),
            Ok((inner, n)) => {
                let rest = rest_of(body, n);
                if rest.len() > 0 && rest[0].kind == TokenKind::RParen {
                    advance(spec_parse_redirs(inner, rest.skip(1)), n + 2)
                } else {
                    Err(SyntaxError::MissingCloseParen)
                }
            },
        }
    } else {
        Err(SyntaxError::UnexpectedToken)
    }
}

/// The command that a whole line stands for: the empty command where it holds
/// no token, else the `line` that spans all its tokens.
pub open spec fn spec_parse(s: Seq<char>) -> Result<CommandView, SyntaxError> {
    let toks = tokens(s);
    if toks.len() == 0 {
        Ok(CommandView::empty())
    } else {
        match spec_parse_line(toks) {
            Err(e) => Err(e),
            Ok((command, n)) => if n == toks.len() {
                Ok(command)
            } else {
                Err(SyntaxError::TrailingInput)
            },
        }
    }
}

/// Whether a line may end before `suffix`: nothing follows, or a `)`.
pub open spec fn ends_line(suffix: Seq<TokenView>) -> bool {
    suffix.len() == 0 || suffix[0].kind == TokenKind::RParen
}

/// A unit that stands alone before the end of its line is a pipeline and a line.
pub proof fn lemma_lone_unit(toks: Seq<TokenView>, command: CommandView, used: nat)
    requires
        spec_parse_exec(toks) == Ok::<(CommandView, nat), SyntaxError>((command, used)),
        ends_line(rest_of(toks, used)),
    ensures
        spec_parse_pipe(toks) == Ok::<(CommandView, nat), SyntaxError>((command, used)),
        spec_parse_line(toks) == Ok::<(CommandView, nat), SyntaxError>((command, used)),
{
    lemma_lone_pipe(toks, command, used);
}

/// A pipeline that stands alone before the end of its line is a line.
pub proof fn lemma_lone_pipe(toks: Seq<TokenView>, command: CommandView, used: nat)
    requires
        spec_parse_pipe(toks) == Ok::<(CommandView, nat), SyntaxError>((command, used)),
        ends_line(rest_of(toks, used)),
    ensures
        spec_parse_line(toks) == Ok::<(CommandView, nat), SyntaxError>((command, used)),
{
    let rest = rest_of(toks, used);
    assert(spec_parse_backs(command, rest) == Ok::<(CommandView, nat), SyntaxError>(
        (command, 0),
    ));
}

/// Redirections to words keep a runnable tree runnable.
pub proof fn lemma_wrap_redirects_runnable(inner: CommandView, redirects: Seq<RedirectView>)
    requires
        inner.runnable(),
        forall|i: int| 0 <= i < redirects.len() ==> is_word(#[trigger] redirects[i].target_path),
    ensures
        wrap_redirects(inner, redirects).runnable(),
    decreases redirects.len(),
{
    if redirects.len() > 0 {
        let front = redirects.drop_last();
        assert forall|i: int| 0 <= i < front.len() implies is_word(
            #[trigger] front[i].target_path,
        ) by {
            assert(front[i] == redirects[i]);
        }
        lemma_wrap_redirects_runnable(inner, front);
    }
}

/// `redir*` uses no more tokens than there are and keeps a runnable tree runnable.
pub proof fn lemma_parse_redirs(inner: CommandView, toks: Seq<TokenView>)
    requires
        well_lexed(toks),
        inner.runnable(),
    ensures
        spec_parse_redirs(inner, toks) matches Ok((command, used)) ==> used <= toks.len()
            && command.runnable(),
    decreases toks.len(),
{
    if toks.len() > 1 && is_redirect(toks[0].kind) && toks[1].kind == TokenKind::Regular {
        let redirect = RedirectView {
            mode: spec_redirect_mode(toks[0].kind),
            target_path: toks[1].text,
        };
        lemma_well_lexed_rest(toks, 2);
        lemma_parse_redirs(redirected(inner, redirect), toks.skip(2));
    }
}

/// What is left of a well-lexed sequence is well lexed.
pub proof fn lemma_well_lexed_rest(toks: Seq<TokenView>, n: nat)
    requires
        well_lexed(toks),
    ensures
        well_lexed(rest_of(toks, n)),
{
    let rest = rest_of(toks, n);
    assert forall|i: int|
        0 <= i < rest.len() && (#[trigger] rest[i]).kind == TokenKind::Regular implies is_word(
        rest[i].text,
    ) by {
        assert(rest[i] == toks[i + n]);
    }
}

/// The words of a command use no more tokens than there are; with one word
/// at least they make a runnable tree.
pub proof fn lemma_parse_words(
    argv: Seq<Seq<char>>,
    redirects: Seq<RedirectView>,
    toks: Seq<TokenView>,
)
    requires
        well_lexed(toks),
        forall|i: int| 0 <= i < argv.len() ==> is_word(#[trigger] argv[i]),
        forall|i: int| 0 <= i < redirects.len() ==> is_word(#[trigger] redirects[i].target_path),
        argv.len() > 0 || (toks.len() > 0 && toks[0].kind == TokenKind::Regular),
    ensures
        spec_parse_words(argv, redirects, toks) matches Ok((command, used)) ==> used
            <= toks.len() && command.runnable(),
    decreases toks.len(),
{
    if toks.len() == 0 || is_terminator(toks[0].kind) {
        lemma_wrap_redirects_runnable(CommandView::Exec { argv }, redirects);
    } else if toks[0].kind == TokenKind::Regular {
        lemma_well_lexed_rest(toks, 1);
        lemma_parse_words(argv.push(toks[0].text), redirects, toks.skip(1));
    } else if is_redirect(toks[0].kind) && toks.len() > 1 && toks[1].kind == TokenKind::Regular {
        let redirect = RedirectView {
            mode: spec_redirect_mode(toks[0].kind),
            target_path: toks[1].text,
        };
        lemma_well_lexed_rest(toks, 2);
        lemma_parse_words(argv, redirects.push(redirect), toks.skip(2));
    }
}

/// `line` uses no more tokens than there are and yields a runnable tree.
pub proof fn lemma_parse_line(toks: Seq<TokenView>)
    requires
        well_lexed(toks),
    ensures
        spec_parse_line(toks) matches Ok((command, used)) ==> used <= toks.len()
            && command.runnable(),
    decreases toks.len(), 4nat,
{
    lemma_parse_pipe(toks);
    if let Ok((first, n)) = spec_parse_pipe(toks) {
        lemma_well_lexed_rest(toks, n);
        lemma_parse_backs(first, rest_of(toks, n));
        if let Ok((left, m)) = spec_parse_backs(first, rest_of(toks, n)) {
            let rest = rest_of(toks, n + m);
            lemma_well_lexed_rest(toks, n + m);
            if rest.len() > 0 && rest[0].kind == TokenKind::Sequence {
                lemma_well_lexed_rest(rest, 1);
                lemma_parse_line(rest.skip(1));
            }
        }
    }
}

/// `( '&' pipe? )*` uses no more tokens than there are and keeps a runnable
/// tree runnable.
pub proof fn lemma_parse_backs(left: CommandView, toks: Seq<TokenView>)
    requires
        well_lexed(toks),
        left.runnable(),
    ensures
        spec_parse_backs(left, toks) matches Ok((command, used)) ==> used <= toks.len()
            && command.runnable(),
    decreases toks.len(), 3nat,
{
    if toks.len() > 0 && toks[0].kind == TokenKind::Background {
        let back = CommandView::Background { inner: Box::new(left) };
        let rest = toks.skip(1);
        assert(back.runnable());
        lemma_well_lexed_rest(toks, 1);
        if rest.len() == 0 || rest[0].kind == TokenKind::Background || rest[0].kind
            == TokenKind::Sequence || rest[0].kind == TokenKind::RParen {
            lemma_parse_backs(back, rest);
        } else {
            lemma_parse_pipe(rest);
            if let Ok((next, n)) = spec_parse_pipe(rest) {
                lemma_well_lexed_rest(rest, n);
                lemma_parse_backs(
                    CommandView::Sequence { left: Box::new(back), right: Box::new(next) },
                    rest_of(rest, n),
                );
            }
        }
    }
}

/// `pipe` uses one token at least, no more than there are, and yields a
/// runnable tree.
pub proof fn lemma_parse_pipe(toks: Seq<TokenView>)
    requires
        well_lexed(toks),
    ensures
        spec_parse_pipe(toks) matches Ok((command, used)) ==> 0 < used <= toks.len()
            && command.runnable(),
    decreases toks.len(), 2nat,
{
    lemma_parse_exec(toks);
    if let Ok((left, n)) = spec_parse_exec(toks) {
        let rest = rest_of(toks, n);
        lemma_well_lexed_rest(toks, n);
        if rest.len() > 0 && rest[0].kind == TokenKind::Pipe {
            lemma_well_lexed_rest(rest, 1);
            lemma_parse_pipe(rest.skip(1));
        }
    }
}

/// `unit` uses one token at least, no more than there are, and yields a
/// runnable tree.
pub proof fn lemma_parse_exec(toks: Seq<TokenView>)
    requires
        well_lexed(toks),
    ensures
        spec_parse_exec(toks) matches Ok((command, used)) ==> 0 < used <= toks.len()
            && command.runnable(),
    decreases toks.len(), 1nat,
{
    if toks.len() > 0 && toks[0].kind == TokenKind::LParen {
        lemma_parse_block(toks);
    } else if toks.len() > 0 && toks[0].kind == TokenKind::Regular {
        lemma_parse_words(Seq::empty(), Seq::empty(), toks);
        lemma_well_lexed_rest(toks, 1);
        lemma_parse_words(Seq::empty().push(toks[0].text), Seq::empty(), toks.skip(1));
    }
}

/// `block` uses two tokens at least, no more than there are, and yields a
/// runnable tree.
pub proof fn lemma_parse_block(toks: Seq<TokenView>)
    requires
        well_lexed(toks),
    ensures
        spec_parse_block(toks) matches Ok((command, used)) ==> 1 < used <= toks.len()
            && command.runnable(),
    decreases toks.len(), 0nat,
{
    if toks.len() > 0 && toks[0].kind == TokenKind::LParen {
        let body = toks.skip(1);
        lemma_well_lexed_rest(toks, 1);
        lemma_parse_line(body);
        if let Ok((inner, n)) = spec_parse_line(body) {
            let rest = rest_of(body, n);
            lemma_well_lexed_rest(body, n);
            if rest.len() > 0 && rest[0].kind == TokenKind::RParen {
                lemma_well_lexed_rest(rest, 1);
                lemma_parse_redirs(inner, rest.skip(1));
            }
        }
    }
}

/// Every line that parses stands for a well-formed tree: the empty command, or
/// a tree in which every `Exec` names a program.
pub proof fn lemma_parse_well_formed(s: Seq<char>)
    ensures
        spec_parse(s) matches Ok(command) ==> command.well_formed(),
{
    lemma_tokens_well_lexed(s);
    lemma_parse_line(tokens(s));
}

} // verus!
