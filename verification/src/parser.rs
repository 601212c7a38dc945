//! The recursive-descent parser: one pass over a cursor into the line.
//!
//! Each function reads the rule of its name off the front of the cursor. When
//! it succeeds the cursor stands behind the tokens it used and the whitespace
//! that follows them; when it fails the cursor is where it was.

use vstd::prelude::*;
use crate::command::{mode_fd, words_view, Command, CommandView, RedirectMode};
use crate::grammar::{
    advance, is_redirect, is_terminator, lemma_parse_backs, lemma_parse_block, lemma_parse_exec,
    lemma_parse_line, lemma_parse_pipe, lemma_parse_redirs, lemma_parse_well_formed, spec_parse,
    spec_parse_backs, spec_parse_block, spec_parse_exec, spec_parse_line, spec_parse_pipe,
    spec_parse_redirs, spec_parse_words, spec_redirect_mode, wrap_redirects, Parsed,
    RedirectView, SyntaxError,
};
use crate::token::{
    drop_tokens, get_token, lemma_drop_tokens, lemma_drop_tokens_len,
    lemma_drop_tokens_skip_whitespace, lemma_skip_whitespace, lemma_tokens_skip_whitespace,
    lemma_tokens_step, lemma_tokens_well_lexed, peek, rest_of, skip_whitespace, tokens, Token,
    TokenKind,
};

verus! {

/// What a parsing function owes: on success the tree of `expected` and a cursor
/// behind the tokens used; on failure the error of `expected` and the cursor
/// unmoved.
pub open spec fn parses_to(
    before: Seq<char>,
    result: Result<Command<'_>, SyntaxError>,
    after: Seq<char>,
    expected: Parsed,
) -> bool {
    match expected {
        Ok((command, used)) => result is Ok && result->Ok_0@ == command && after == drop_tokens(
            before,
            used,
        ),
        Err(e) => result is Err && result->Err_0 == e && after == before,
    }
}

/// The mode that a redirection operator stands for: reading for `<`,
/// appending for `>>`, truncating for `>`, as for any other token.
pub fn redirect_mode(kind: TokenKind) -> (mode: RedirectMode)
    ensures
        mode == spec_redirect_mode(kind),
{
    match kind {
        TokenKind::LRedir => RedirectMode::Read,
        TokenKind::Append => RedirectMode::WriteAppend,
        _ => RedirectMode::WriteTruncate,
    }
}

/// A cursor that stands behind `used` tokens of `start` has the tokens of
/// `start` behind them, and moves on as `start` would.
proof fn lemma_cursor(start: Seq<char>, used: nat, n: nat)
    ensures
        tokens(drop_tokens(start, used)) == rest_of(tokens(start), used),
        drop_tokens(drop_tokens(start, used), n) == drop_tokens(start, used + n),
        skip_whitespace(drop_tokens(start, used)) == drop_tokens(start, used),
        drop_tokens(start, used).len() <= start.len(),
        used > 0 && tokens(start).len() > 0 ==> drop_tokens(start, used).len() < start.len(),
        used + 1 <= tokens(start).len() ==> rest_of(tokens(start), used).skip(1) == rest_of(
            tokens(start),
            used + 1,
        ),
        rest_of(rest_of(tokens(start), used), n) == rest_of(tokens(start), used + n),
{
    lemma_drop_tokens(start, used, n);
    lemma_drop_tokens_len(start, used);
    if used + n <= tokens(start).len() {
        assert(tokens(start).skip(used as int).skip(n as int) =~= tokens(start).skip(
            used as int + n,
        ));
    }
    if used + 1 <= tokens(start).len() {
        assert(tokens(start).skip(used as int).skip(1) =~= tokens(start).skip(used as int + 1));
    }
}

/// Reads the next token: the first of the tokens that the cursor has left.
fn take_token<'b>(ps: &mut &'b str) -> (r: Option<Token<'b>>)
    ensures
        tokens((*old(ps))@).len() == 0 ==> r is None && (*final(ps))@ == drop_tokens(
            (*old(ps))@,
            0,
        ),
        tokens((*old(ps))@).len() > 0 ==> r is Some && r->Some_0@ == tokens((*old(ps))@)[0]
            && (*final(ps))@ == drop_tokens((*old(ps))@, 1),
{
    proof {
        lemma_tokens_step((*ps)@);
        lemma_tokens_skip_whitespace((*ps)@);
    }
    let r = get_token(ps);
    assert(tokens((*old(ps))@).len() == 0 ==> (*ps)@ =~= skip_whitespace((*old(ps))@));
    r
}

/// Parses `redir*` behind `cmd`: each redirection wraps what was built before
/// it, so the last one of a line is outermost.
pub fn parse_redirs<'b>(cmd: Command<'b>, ps: &mut &'b str) -> (r: Result<
    Command<'b>,
    SyntaxError,
>)
    ensures
        parses_to(
            (*old(ps))@,
            r,
            (*final(ps))@,
            spec_parse_redirs(cmd@, tokens((*old(ps))@)),
        ),
        cmd@.runnable() ==> (r matches Ok(command) ==> command@.runnable()),
{
    proof {
        lemma_tokens_well_lexed((*ps)@);
        if cmd@.runnable() {
            lemma_parse_redirs(cmd@, tokens((*ps)@));
        }
    }
    let start: &'b str = *ps;
    let ghost toks = tokens(start@);
    let mut built: Command<'b> = cmd;
    let ghost mut used: nat = 0;
    assert(rest_of(toks, 0) =~= toks);
    loop
        invariant
            start@ == (*old(ps))@,
            toks == tokens(start@),
            skip_whitespace((*ps)@) == drop_tokens(start@, used),
            used <= toks.len(),
            spec_parse_redirs(cmd@, toks) == advance(
                spec_parse_redirs(built@, rest_of(toks, used)),
                used,
            ),
            cmd@.runnable() ==> (spec_parse_redirs(cmd@, toks) matches Ok((command, _))
                ==> command.runnable()),
        decreases toks.len() - used,
    {
        proof {
            lemma_cursor(start@, used, 0);
            lemma_cursor(start@, used, 1);
            lemma_cursor(start@, used + 1, 1);
            lemma_cursor(start@, used + 2, 0);
            lemma_drop_tokens_skip_whitespace((*ps)@, 1);
            lemma_tokens_skip_whitespace((*ps)@);
        }
        if !at_redirect(ps) {
            return Ok(built);
        }
        let operator: Option<Token<'b>> = take_token(ps);
        let target: Option<Token<'b>> = take_token(ps);
        match (operator, target) {
            (Some(op), Some(file)) => {
                if file.kind != TokenKind::Regular {
                    *ps = start;
                    return Err(SyntaxError::MissingRedirectTarget);
                }
                let mode: RedirectMode = redirect_mode(op.kind);
                built = Command::Redirect {
                    inner: Box::new(built),
                    target_path: file.buf,
                    mode,
                    target_fd: mode_fd(mode),
                };
                proof {
                    assert(rest_of(toks, used).skip(2) =~= rest_of(toks, used + 2));
                    used = used + 2;
                }
            },
            _ => {
                *ps = start;
                return Err(SyntaxError::MissingRedirectTarget);
            },
        }
    }
}

/// The redirections of a command as they were written.
pub open spec fn redirects_view(redirects: Seq<(RedirectMode, &str)>) -> Seq<RedirectView> {
    Seq::new(
        redirects.len(),
        |i: int| RedirectView { mode: redirects[i].0, target_path: redirects[i].1@ },
    )
}

/// An `Exec` of `argv` under `redirects`, the first innermost.
fn build_exec<'b>(argv: Vec<&'b str>, redirects: &Vec<(RedirectMode, &'b str)>) -> (r: Command<'b>)
    ensures
        r@ == wrap_redirects(
            CommandView::Exec { argv: words_view(argv@) },
            redirects_view(redirects@),
        ),
{
    let ghost exec = CommandView::Exec { argv: words_view(argv@) };
    let ghost all = redirects_view(redirects@);
    let mut built: Command<'b> = Command::Exec { argv };
    let mut i: usize = 0;
    while i < redirects.len()
        invariant
            i <= redirects.len(),
            all == redirects_view(redirects@),
            built@ == wrap_redirects(exec, all.take(i as int)),
        decreases redirects.len() - i,
    {
        let mode: RedirectMode = redirects[i].0;
        built = Command::Redirect {
            inner: Box::new(built),
            target_path: redirects[i].1,
            mode,
            target_fd: mode_fd(mode),
        };
        proof {
            let next = all.take(i + 1);
            assert(next.drop_last() =~= all.take(i as int));
            assert(next.last() == all[i as int]);
        }
        i += 1;
    }
    assert(all.take(i as int) =~= all);
    built
}

/// Parses `( word | redir )*` up to the end of the line or a terminator.
fn parse_words<'b>(ps: &mut &'b str) -> (r: Result<Command<'b>, SyntaxError>)
    ensures
        parses_to(
            (*old(ps))@,
            r,
            (*final(ps))@,
            spec_parse_words(Seq::empty(), Seq::empty(), tokens((*old(ps))@)),
        ),
{
    let start: &'b str = *ps;
    let ghost toks = tokens(start@);
    let mut argv: Vec<&'b str> = Vec::new();
    let mut redirects: Vec<(RedirectMode, &'b str)> = Vec::new();
    let ghost mut used: nat = 0;
    assert(rest_of(toks, 0) =~= toks);
    assert(words_view(argv@) =~= Seq::empty());
    assert(redirects_view(redirects@) =~= Seq::empty());
    loop
        invariant
            start@ == (*old(ps))@,
            toks == tokens(start@),
            skip_whitespace((*ps)@) == drop_tokens(start@, used),
            used <= toks.len(),
            spec_parse_words(Seq::empty(), Seq::empty(), toks) == advance(
                spec_parse_words(
                    words_view(argv@),
                    redirects_view(redirects@),
                    rest_of(toks, used),
                ),
                used,
            ),
        decreases toks.len() - used,
    {
        proof {
            lemma_cursor(start@, used, 0);
            lemma_cursor(start@, used, 1);
            lemma_cursor(start@, used + 1, 0);
            lemma_cursor(start@, used + 1, 1);
            lemma_cursor(start@, used + 2, 0);
            lemma_drop_tokens_skip_whitespace((*ps)@, 1);
            lemma_tokens_skip_whitespace((*ps)@);
        }
        if at_terminator(ps) {
            return Ok(build_exec(argv, &redirects));
        }
        let ghost words = words_view(argv@);
        let ghost written = redirects_view(redirects@);
        match take_token(ps) {
            None => {
                return Ok(build_exec(argv, &redirects));
            },
            Some(tok) => match tok.kind {
                TokenKind::Regular => {
                    argv.push(tok.buf);
                    proof {
                        assert(words_view(argv@) =~= words.push(tok.buf@));
                        used = used + 1;
                    }
                },
                TokenKind::LRedir | TokenKind::RRedir | TokenKind::Append => {
                    match take_token(ps) {
                        Some(file) => {
                            if file.kind != TokenKind::Regular {
                                *ps = start;
                                return Err(SyntaxError::MissingRedirectTarget);
                            }
                            redirects.push((redirect_mode(tok.kind), file.buf));
                            proof {
                                assert(redirects_view(redirects@) =~= written.push(
                                    RedirectView {
                                        mode: spec_redirect_mode(tok.kind),
                                        target_path: file.buf@,
                                    },
                                ));
                                assert(rest_of(toks, used).skip(2) =~= rest_of(toks, used + 2));
                                used = used + 2;
                            }
                        },
                        None => {
                            *ps = start;
                            return Err(SyntaxError::MissingRedirectTarget);
                        },
                    }
                },
                _ => {
                    *ps = start;
                    return Err(SyntaxError::UnexpectedToken);
                },
            },
        }
    }
}

/// Whether no token is left. The cursor moves past leading whitespace.
fn exhausted(ps: &mut &str) -> (r: bool)
    ensures
        (*final(ps))@ == drop_tokens((*old(ps))@, 0),
        r == (tokens((*old(ps))@).len() == 0),
{
    proof {
        lemma_tokens_skip_whitespace((*ps)@);
    }
    let more: bool = peek(ps, "");
    let s: &str = *ps;
    s.unicode_len() == 0
}

/// The operators of one character.
pub open spec fn is_single(kind: TokenKind) -> bool {
    kind == TokenKind::Pipe || kind == TokenKind::Sequence || kind == TokenKind::Background
        || kind == TokenKind::LParen || kind == TokenKind::RParen
}

/// Whether the next token is the operator `kind`. The cursor moves past
/// leading whitespace.
fn at_operator(ps: &mut &str, kind: TokenKind) -> (r: bool)
    requires
        is_single(kind),
    ensures
        (*final(ps))@ == drop_tokens((*old(ps))@, 0),
        r == (tokens((*old(ps))@).len() > 0 && tokens((*old(ps))@)[0].kind == kind),
{
    proof {
        lemma_tokens_skip_whitespace((*ps)@);
        reveal_strlit("|");
        reveal_strlit(";");
        reveal_strlit("&");
        reveal_strlit("(");
        reveal_strlit(")");
        assert("|"@[0] == '|' && ";"@[0] == ';' && "&"@[0] == '&' && "("@[0] == '(' && ")"@[0]
            == ')');
    }
    match kind {
        TokenKind::Pipe => peek(ps, "|"),
        TokenKind::Sequence => peek(ps, ";"),
        TokenKind::Background => peek(ps, "&"),
        TokenKind::LParen => peek(ps, "("),
        _ => peek(ps, ")"),
    }
}

/// Whether the next token is a redirection operator. The cursor moves past
/// leading whitespace.
fn at_redirect(ps: &mut &str) -> (r: bool)
    ensures
        (*final(ps))@ == drop_tokens((*old(ps))@, 0),
        r == (tokens((*old(ps))@).len() > 0 && is_redirect(tokens((*old(ps))@)[0].kind)),
{
    proof {
        lemma_tokens_skip_whitespace((*ps)@);
        reveal_strlit("<>");
        assert("<>"@[0] == '<' && "<>"@[1] == '>');
    }
    peek(ps, "<>")
}

/// Whether the next token ends a pipeline stage. The cursor moves past
/// leading whitespace.
fn at_terminator(ps: &mut &str) -> (r: bool)
    ensures
        (*final(ps))@ == drop_tokens((*old(ps))@, 0),
        r == (tokens((*old(ps))@).len() > 0 && is_terminator(tokens((*old(ps))@)[0].kind)),
{
    proof {
        lemma_tokens_skip_whitespace((*ps)@);
        reveal_strlit("|)&;");
        let w = "|)&;"@;
        assert(w[0] == '|' && w[1] == ')' && w[2] == '&' && w[3] == ';');
    }
    peek(ps, "|)&;")
}

/// Whether the next token is a word. The cursor moves past leading whitespace.
fn at_word(ps: &mut &str) -> (r: bool)
    ensures
        (*final(ps))@ == drop_tokens((*old(ps))@, 0),
        r == (tokens((*old(ps))@).len() > 0 && tokens((*old(ps))@)[0].kind
            == TokenKind::Regular),
{
    proof {
        lemma_tokens_skip_whitespace((*ps)@);
        lemma_skip_whitespace((*ps)@);
        reveal_strlit("<>|)&;(");
        let w = "<>|)&;("@;
        assert(w[0] == '<' && w[1] == '>' && w[2] == '|' && w[3] == ')' && w[4] == '&' && w[5]
            == ';' && w[6] == '(');
    }
    let operator: bool = peek(ps, "<>|)&;(");
    let s: &str = *ps;
    !operator && s.unicode_len() > 0
}

/// Whether nothing that could begin a pipeline follows: the line ends, or
/// the next token is `&`, `;` or `)`. The cursor moves past leading whitespace.
fn at_line_break(ps: &mut &str) -> (r: bool)
    ensures
        (*final(ps))@ == drop_tokens((*old(ps))@, 0),
        r == (tokens((*old(ps))@).len() == 0 || tokens((*old(ps))@)[0].kind
            == TokenKind::Background || tokens((*old(ps))@)[0].kind == TokenKind::Sequence
            || tokens((*old(ps))@)[0].kind == TokenKind::RParen),
{
    proof {
        lemma_tokens_skip_whitespace((*ps)@);
        lemma_skip_whitespace((*ps)@);
        reveal_strlit("&;)");
        let w = "&;)"@;
        assert(w[0] == '&' && w[1] == ';' && w[2] == ')');
    }
    let operator: bool = peek(ps, "&;)");
    let s: &str = *ps;
    operator || s.unicode_len() == 0
}

/// Parses `block := '(' line ')' redir*`: the tree of the line inside, under
/// the redirections that follow the group.
pub fn parse_block<'b>(ps: &mut &'b str) -> (r: Result<Command<'b>, SyntaxError>)
    ensures
        parses_to((*old(ps))@, r, (*final(ps))@, spec_parse_block(tokens((*old(ps))@))),
        r matches Ok(command) ==> command@.runnable(),
    decreases (*old(ps))@.len(), 0nat,
{
    proof {
        lemma_tokens_well_lexed((*ps)@);
        lemma_parse_block(tokens((*ps)@));
    }
    let start: &'b str = *ps;
    let ghost toks = tokens(start@);
    proof {
        lemma_cursor(start@, 0, 1);
        lemma_cursor(start@, 1, 0);
    }
    if !at_operator(ps, TokenKind::LParen) {
        *ps = start;
        return Err(SyntaxError::UnexpectedToken);
    }
    let open: Option<Token<'b>> = take_token(ps);
    let ghost body = toks.skip(1);
    assert(rest_of(toks, 1) == body);
    let inner: Command<'b> = match parse_line(ps) {
        Ok(inner) => inner,
        Err(e) => {
            *ps = start;
            return Err(e);
        },
    };
    let ghost n = spec_parse_line(body)->Ok_0.1;
    proof {
        lemma_cursor(start@, 1, n);
        lemma_cursor(start@, 1 + n, 0);
        lemma_cursor(start@, 1 + n, 1);
        lemma_cursor(start@, 2 + n, 0);
    }
    if !at_operator(ps, TokenKind::RParen) {
        *ps = start;
        return Err(SyntaxError::MissingCloseParen);
    }
    let close: Option<Token<'b>> = take_token(ps);
    proof {
        let m = match spec_parse_redirs(inner@, rest_of(body, n).skip(1)) {
            Ok((_, m)) => m,
            Err(_) => 0,
        };
        lemma_cursor(start@, 2 + n, m);
    }
    match parse_redirs(inner, ps) {
        Ok(command) => Ok(command),
        Err(e) => {
            *ps = start;
            Err(e)
        },
    }
}

/// Parses `unit := block | exec`: a group in parentheses, or one command,
/// whose redirections may stand among its words.
pub fn parse_exec<'b>(ps: &mut &'b str) -> (r: Result<Command<'b>, SyntaxError>)
    ensures
        parses_to((*old(ps))@, r, (*final(ps))@, spec_parse_exec(tokens((*old(ps))@))),
        r matches Ok(command) ==> command@.runnable(),
    decreases (*old(ps))@.len(), 1nat,
{
    proof {
        lemma_tokens_well_lexed((*ps)@);
        lemma_parse_exec(tokens((*ps)@));
    }
    let start: &'b str = *ps;
    let ghost toks = tokens(start@);
    proof {
        lemma_cursor(start@, 0, 0);
    }
    if at_operator(ps, TokenKind::LParen) {
        proof {
            let n = match spec_parse_block(toks) {
                Ok((_, n)) => n,
                Err(_) => 0,
            };
            lemma_cursor(start@, 0, n);
        }
        return match parse_block(ps) {
            Ok(command) => Ok(command),
            Err(e) => {
                *ps = start;
                Err(e)
            },
        };
    }
    if !at_word(ps) {
        *ps = start;
        return Err(SyntaxError::StrayOperator);
    }
    proof {
        let n = match spec_parse_words(Seq::empty(), Seq::empty(), toks) {
            Ok((_, n)) => n,
            Err(_) => 0,
        };
        lemma_cursor(start@, 0, n);
    }
    match parse_words(ps) {
        Ok(command) => Ok(command),
        Err(e) => {
            *ps = start;
            Err(e)
        },
    }
}

/// Parses `pipe := unit ( '|' pipe )?`, which associates to the right.
pub fn parse_pipe<'b>(ps: &mut &'b str) -> (r: Result<Command<'b>, SyntaxError>)
    ensures
        parses_to((*old(ps))@, r, (*final(ps))@, spec_parse_pipe(tokens((*old(ps))@))),
        r matches Ok(command) ==> command@.runnable(),
    decreases (*old(ps))@.len(), 2nat,
{
    proof {
        lemma_tokens_well_lexed((*ps)@);
        lemma_parse_pipe(tokens((*ps)@));
    }
    let start: &'b str = *ps;
    let ghost toks = tokens(start@);
    let left: Command<'b> = match parse_exec(ps) {
        Ok(left) => left,
        Err(e) => {
            return Err(e);
        },
    };
    let ghost n = spec_parse_exec(toks)->Ok_0.1;
    proof {
        lemma_cursor(start@, n, 0);
        lemma_cursor(start@, n, 1);
        lemma_cursor(start@, n + 1, 0);
    }
    if !at_operator(ps, TokenKind::Pipe) {
        return Ok(left);
    }
    let bar: Option<Token<'b>> = take_token(ps);
    proof {
        lemma_drop_tokens_len((*old(ps))@, n + 1);
        let m = match spec_parse_pipe(rest_of(toks, n).skip(1)) {
            Ok((_, m)) => m,
            Err(_) => 0,
        };
        lemma_cursor(start@, n + 1, m);
    }
    match parse_pipe(ps) {
        Ok(right) => Ok(Command::Pipe { left: Box::new(left), right: Box::new(right) }),
        Err(e) => {
            *ps = start;
            Err(e)
        },
    }
}

/// Parses `( '&' pipe? )*` behind `left`: each `&` puts what was built before
/// it in the background; a pipeline behind an `&` runs after that.
pub fn parse_backs<'b>(left: Command<'b>, ps: &mut &'b str) -> (r: Result<
    Command<'b>,
    SyntaxError,
>)
    ensures
        parses_to(
            (*old(ps))@,
            r,
            (*final(ps))@,
            spec_parse_backs(left@, tokens((*old(ps))@)),
        ),
        left@.runnable() ==> (r matches Ok(command) ==> command@.runnable()),
    decreases (*old(ps))@.len(), 3nat,
{
    proof {
        lemma_tokens_well_lexed((*ps)@);
        if left@.runnable() {
            lemma_parse_backs(left@, tokens((*ps)@));
        }
    }
    let start: &'b str = *ps;
    let ghost toks = tokens(start@);
    proof {
        lemma_cursor(start@, 0, 0);
        lemma_cursor(start@, 0, 1);
        lemma_cursor(start@, 1, 0);
    }
    if !at_operator(ps, TokenKind::Background) {
        return Ok(left);
    }
    let amp: Option<Token<'b>> = take_token(ps);
    let ghost put_back = CommandView::Background { inner: Box::new(left@) };
    let back: Command<'b> = Command::Background { inner: Box::new(left) };
    assert(back@ == put_back);
    let ghost rest = toks.skip(1);
    assert(rest_of(toks, 1) == rest);
    proof {
        lemma_drop_tokens_len(start@, 1);
    }
    let alone: bool = at_line_break(ps);
    let next: Command<'b> = if alone {
        back
    } else {
        match parse_pipe(ps) {
            Ok(pipe) => Command::Sequence { left: Box::new(back), right: Box::new(pipe) },
            Err(e) => {
                *ps = start;
                return Err(e);
            },
        }
    };
    let ghost n: nat = if alone {
        0
    } else {
        spec_parse_pipe(rest)->Ok_0.1
    };
    assert(!alone ==> next@ == CommandView::Sequence {
        left: Box::new(put_back),
        right: Box::new(spec_parse_pipe(rest)->Ok_0.0),
    });
    proof {
        lemma_cursor(start@, 1, n);
        lemma_cursor(start@, 1 + n, 0);
        lemma_drop_tokens_len(start@, 1 + n);
        assert(rest_of(rest, 0) =~= rest);
        let m = match spec_parse_backs(next@, rest_of(rest, n)) {
            Ok((_, m)) => m,
            Err(_) => 0,
        };
        lemma_cursor(start@, 1 + n, m);
    }
    match parse_backs(next, ps) {
        Ok(command) => Ok(command),
        Err(e) => {
            *ps = start;
            Err(e)
        },
    }
}

/// Parses `line := pipe ( '&' pipe? )* ( ';' line )?`.
pub fn parse_line<'b>(ps: &mut &'b str) -> (r: Result<Command<'b>, SyntaxError>)
    ensures
        parses_to((*old(ps))@, r, (*final(ps))@, spec_parse_line(tokens((*old(ps))@))),
        r matches Ok(command) ==> command@.runnable(),
    decreases (*old(ps))@.len(), 4nat,
{
    proof {
        lemma_tokens_well_lexed((*ps)@);
        lemma_parse_line(tokens((*ps)@));
    }
    let start: &'b str = *ps;
    let ghost toks = tokens(start@);
    let first: Command<'b> = match parse_pipe(ps) {
        Ok(first) => first,
        Err(e) => {
            return Err(e);
        },
    };
    let ghost n = spec_parse_pipe(toks)->Ok_0.1;
    proof {
        lemma_cursor(start@, n, 0);
        let m = match spec_parse_backs(first@, rest_of(toks, n)) {
            Ok((_, m)) => m,
            Err(_) => 0,
        };
        lemma_cursor(start@, n, m);
    }
    let left: Command<'b> = match parse_backs(first, ps) {
        Ok(left) => left,
        Err(e) => {
            *ps = start;
            return Err(e);
        },
    };
    let ghost m = spec_parse_backs(first@, rest_of(toks, n))->Ok_0.1;
    proof {
        lemma_cursor(start@, n + m, 0);
        lemma_cursor(start@, n + m, 1);
        lemma_cursor(start@, n + m + 1, 0);
    }
    if !at_operator(ps, TokenKind::Sequence) {
        return Ok(left);
    }
    let semi: Option<Token<'b>> = take_token(ps);
    proof {
        lemma_drop_tokens_len(start@, n + m + 1);
        let k = match spec_parse_line(rest_of(toks, n + m).skip(1)) {
            Ok((_, k)) => k,
            Err(_) => 0,
        };
        lemma_cursor(start@, n + m + 1, k);
    }
    match parse_line(ps) {
        Ok(right) => Ok(Command::Sequence { left: Box::new(left), right: Box::new(right) }),
        Err(e) => {
            *ps = start;
            Err(e)
        },
    }
}

/// Parses a whole line. A line without a token is the empty command; any
/// other line must be one `line` of the grammar from its first token to its last.
pub fn parse_cmd<'b>(line: &'b str) -> (r: Result<Command<'b>, SyntaxError>)
    ensures
        match spec_parse(line@) {
            Ok(command) => r is Ok && r->Ok_0@ == command,
            Err(e) => r is Err && r->Err_0 == e,
        },
        r matches Ok(command) ==> command@.well_formed(),
{
    let mut cursor: &'b str = line;
    let ghost toks = tokens(line@);
    proof {
        lemma_parse_well_formed(line@);
        lemma_tokens_well_lexed(line@);
        lemma_parse_line(toks);
        lemma_cursor(line@, 0, 0);
    }
    if exhausted(&mut cursor) {
        let argv: Vec<&'b str> = Vec::new();
        assert(words_view(argv@) =~= Seq::empty());
        return Ok(Command::Exec { argv });
    }
    proof {
        let n = match spec_parse_line(toks) {
            Ok((_, n)) => n,
            Err(_) => 0,
        };
        lemma_cursor(line@, 0, n);
        lemma_cursor(line@, n, 0);
    }
    match parse_line(&mut cursor) {
        Err(e) => Err(e),
        Ok(command) => {
            if exhausted(&mut cursor) {
                Ok(command)
            } else {
                Err(SyntaxError::TrailingInput)
            }
        },
    }
}

} // verus!
