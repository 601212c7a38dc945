//! What holds of every line: that a blank one is the empty command, how a
//! command may end, and that a group has the tree of the line inside it.

use vstd::prelude::*;
use crate::chars::{is_word_char, spec_is_whitespace};
use crate::command::CommandView;
use crate::grammar::{
    advance, ends_line, is_redirect, is_terminator, lemma_lone_unit, redirected, spec_parse,
    spec_parse_backs, spec_parse_block, spec_parse_exec, spec_parse_line, spec_parse_pipe,
    spec_parse_redirs, spec_parse_words, spec_redirect_mode, RedirectView, SyntaxError,
};
use crate::token::{
    front_kind, front_len, lemma_get_token, lemma_operator_text, lemma_skip_whitespace,
    lemma_tokens_skip_whitespace, lemma_tokens_step, lemma_word_len, operator, rest_of,
    skip_whitespace, tokens, word_len, TokenKind, TokenView,
};

verus! {

/// A line of nothing but whitespace, the empty line among them, stands for
/// the empty command.
pub proof fn blank_line_is_empty_command(s: Seq<char>)
    requires
        forall|i: int| 0 <= i < s.len() ==> spec_is_whitespace(#[trigger] s[i]),
    ensures
        spec_parse(s) == Ok::<CommandView, SyntaxError>(CommandView::empty()),
{
    lemma_skip_whitespace(s);
    lemma_tokens_skip_whitespace(s);
    let rest = skip_whitespace(s);
    if rest.len() > 0 {
        assert(rest[0] == s[s.len() - rest.len()]);
    }
}

/// The tokens that a command may end with: a word, `)` or `&`.
pub open spec fn ends_command(kind: TokenKind) -> bool {
    kind == TokenKind::Regular || kind == TokenKind::RParen || kind == TokenKind::Background
}

/// Whether the first `used` tokens of `toks` are there, and end as a command may.
pub open spec fn well_ended(toks: Seq<TokenView>, used: nat) -> bool {
    0 < used <= toks.len() && ends_command(toks[used - 1].kind)
}

/// `redir*` uses no token, or ends with a word.
pub proof fn lemma_redirs_end(inner: CommandView, toks: Seq<TokenView>)
    ensures
        spec_parse_redirs(inner, toks) matches Ok((_, used)) ==> used == 0 || well_ended(
            toks,
            used,
        ),
    decreases toks.len(),
{
    if toks.len() > 1 && is_redirect(toks[0].kind) && toks[1].kind == TokenKind::Regular {
        let redirect = RedirectView {
            mode: spec_redirect_mode(toks[0].kind),
            target_path: toks[1].text,
        };
        let rest = toks.skip(2);
        lemma_redirs_end(redirected(inner, redirect), rest);
        if let Ok((_, m)) = spec_parse_redirs(redirected(inner, redirect), rest) {
            if m > 0 {
                assert(rest[m - 1] == toks[(m + 1) as int]);
            }
        }
    }
}

/// The words of a command use no token, or end with a word.
pub proof fn lemma_words_end(
    argv: Seq<Seq<char>>,
    redirects: Seq<RedirectView>,
    toks: Seq<TokenView>,
)
    ensures
        spec_parse_words(argv, redirects, toks) matches Ok((_, used)) ==> used == 0
            || well_ended(toks, used),
    decreases toks.len(),
{
    if toks.len() == 0 || is_terminator(toks[0].kind) {
    } else if toks[0].kind == TokenKind::Regular {
        let rest = toks.skip(1);
        lemma_words_end(argv.push(toks[0].text), redirects, rest);
        if let Ok((_, m)) = spec_parse_words(argv.push(toks[0].text), redirects, rest) {
            if m > 0 {
                assert(rest[m - 1] == toks[m as int]);
            }
        }
    } else if is_redirect(toks[0].kind) && toks.len() > 1 && toks[1].kind == TokenKind::Regular {
        let redirect = RedirectView {
            mode: spec_redirect_mode(toks[0].kind),
            target_path: toks[1].text,
        };
        let rest = toks.skip(2);
        lemma_words_end(argv, redirects.push(redirect), rest);
        if let Ok((_, m)) = spec_parse_words(argv, redirects.push(redirect), rest) {
            if m > 0 {
                assert(rest[m - 1] == toks[(m + 1) as int]);
            }
        }
    }
}

/// A line ends as a command may.
pub proof fn lemma_line_ends(toks: Seq<TokenView>)
    ensures
        spec_parse_line(toks) matches Ok((_, used)) ==> well_ended(toks, used),
    decreases toks.len(), 4nat,
{
    lemma_pipe_ends(toks);
    if let Ok((first, n)) = spec_parse_pipe(toks) {
        let behind = rest_of(toks, n);
        lemma_backs_end(first, behind);
        if let Ok((left, m)) = spec_parse_backs(first, behind) {
            if m > 0 {
                assert(behind[m - 1] == toks[(n + m - 1) as int]);
            }
            let rest = rest_of(toks, n + m);
            if rest.len() > 0 && rest[0].kind == TokenKind::Sequence {
                let last = rest.skip(1);
                lemma_line_ends(last);
                if let Ok((_, k)) = spec_parse_line(last) {
                    assert(last[k - 1] == toks[(n + m + k) as int]);
                }
            }
        }
    }
}

/// `( '&' pipe? )*` uses no token, or ends as a command may.
pub proof fn lemma_backs_end(left: CommandView, toks: Seq<TokenView>)
    ensures
        spec_parse_backs(left, toks) matches Ok((_, used)) ==> used == 0 || well_ended(
            toks,
            used,
        ),
    decreases toks.len(), 3nat,
{
    if toks.len() > 0 && toks[0].kind == TokenKind::Background {
        let back = CommandView::Background { inner: Box::new(left) };
        let rest = toks.skip(1);
        if rest.len() == 0 || rest[0].kind == TokenKind::Background || rest[0].kind
            == TokenKind::Sequence || rest[0].kind == TokenKind::RParen {
            lemma_backs_end(back, rest);
            if let Ok((_, m)) = spec_parse_backs(back, rest) {
                if m > 0 {
                    assert(rest[m - 1] == toks[m as int]);
                }
            }
        } else {
            lemma_pipe_ends(rest);
            if let Ok((next, n)) = spec_parse_pipe(rest) {
                let then = CommandView::Sequence { left: Box::new(back), right: Box::new(next) };
                let behind = rest_of(rest, n);
                assert(rest[n - 1] == toks[n as int]);
                lemma_backs_end(then, behind);
                if let Ok((_, m)) = spec_parse_backs(then, behind) {
                    if m > 0 {
                        assert(behind[m - 1] == toks[(n + m) as int]);
                    }
                }
            }
        }
    }
}

/// A pipeline ends as a command may.
pub proof fn lemma_pipe_ends(toks: Seq<TokenView>)
    ensures
        spec_parse_pipe(toks) matches Ok((_, used)) ==> well_ended(toks, used),
    decreases toks.len(), 2nat,
{
    lemma_exec_ends(toks);
    if let Ok((left, n)) = spec_parse_exec(toks) {
        let rest = rest_of(toks, n);
        if rest.len() > 0 && rest[0].kind == TokenKind::Pipe {
            let last = rest.skip(1);
            lemma_pipe_ends(last);
            if let Ok((_, m)) = spec_parse_pipe(last) {
                assert(last[m - 1] == toks[(n + m) as int]);
            }
        }
    }
}

/// A unit ends as a command may.
pub proof fn lemma_exec_ends(toks: Seq<TokenView>)
    ensures
        spec_parse_exec(toks) matches Ok((_, used)) ==> well_ended(toks, used),
    decreases toks.len(), 1nat,
{
    if toks.len() > 0 && toks[0].kind == TokenKind::LParen {
        lemma_block_ends(toks);
    } else if toks.len() > 0 && toks[0].kind == TokenKind::Regular {
        let rest = toks.skip(1);
        let argv = Seq::<Seq<char>>::empty().push(toks[0].text);
        lemma_words_end(argv, Seq::empty(), rest);
        if let Ok((_, m)) = spec_parse_words(argv, Seq::empty(), rest) {
            if m > 0 {
                assert(rest[m - 1] == toks[m as int]);
            }
        }
    }
}

/// A group ends as a command may.
pub proof fn lemma_block_ends(toks: Seq<TokenView>)
    ensures
        spec_parse_block(toks) matches Ok((_, used)) ==> well_ended(toks, used),
    decreases toks.len(), 0nat,
{
    if toks.len() > 0 && toks[0].kind == TokenKind::LParen {
        let body = toks.skip(1);
        lemma_line_ends(body);
        if let Ok((inner, n)) = spec_parse_line(body) {
            let rest = rest_of(body, n);
            if rest.len() > 0 && rest[0].kind == TokenKind::RParen {
                let behind = rest.skip(1);
                assert(rest[0] == toks[(n + 1) as int]);
                lemma_redirs_end(inner, behind);
                if let Ok((_, m)) = spec_parse_redirs(inner, behind) {
                    if m > 0 {
                        assert(behind[m - 1] == toks[(n + m + 1) as int]);
                    }
                }
            }
        }
    }
}

/// A line that ends with an operator that wants something behind it, that
/// is with `|`, `;`, `<`, `>`, `>>` or `(`, is a syntax error: it stands for
/// no tree, not for the tree of what stands before the operator.
pub proof fn dangling_operator_is_error(line: Seq<char>)
    requires
        tokens(line).len() > 0,
        !ends_command(tokens(line).last().kind),
    ensures
        spec_parse(line) is Err,
{
    lemma_line_ends(tokens(line));
}

/// `redir*` parses alike before the end of a line and before a `)`.
pub proof fn lemma_redirs_before(inner: CommandView, toks: Seq<TokenView>, suffix: Seq<TokenView>)
    requires
        ends_line(suffix),
    ensures
        spec_parse_redirs(inner, toks) is Ok ==> spec_parse_redirs(inner, toks + suffix)
            == spec_parse_redirs(inner, toks),
    decreases toks.len(),
{
    let all = toks + suffix;
    if toks.len() == 0 {
        assert(all =~= suffix);
    } else {
        assert(all[0] == toks[0]);
        if toks.len() > 1 && is_redirect(toks[0].kind) && toks[1].kind == TokenKind::Regular {
            let redirect = RedirectView {
                mode: spec_redirect_mode(toks[0].kind),
                target_path: toks[1].text,
            };
            assert(all[1] == toks[1]);
            assert(all.skip(2) =~= toks.skip(2) + suffix);
            lemma_redirs_before(redirected(inner, redirect), toks.skip(2), suffix);
        }
    }
}

/// The words of a command parse alike before the end of a line and before a `)`.
pub proof fn lemma_words_before(
    argv: Seq<Seq<char>>,
    redirects: Seq<RedirectView>,
    toks: Seq<TokenView>,
    suffix: Seq<TokenView>,
)
    requires
        ends_line(suffix),
    ensures
        spec_parse_words(argv, redirects, toks) is Ok ==> spec_parse_words(
            argv,
            redirects,
            toks + suffix,
        ) == spec_parse_words(argv, redirects, toks),
    decreases toks.len(),
{
    let all = toks + suffix;
    if toks.len() == 0 {
        assert(all =~= suffix);
    } else {
        assert(all[0] == toks[0]);
        if is_terminator(toks[0].kind) {
        } else if toks[0].kind == TokenKind::Regular {
            assert(all.skip(1) =~= toks.skip(1) + suffix);
            lemma_words_before(argv.push(toks[0].text), redirects, toks.skip(1), suffix);
        } else if is_redirect(toks[0].kind) && toks.len() > 1 && toks[1].kind
            == TokenKind::Regular {
            let redirect = RedirectView {
                mode: spec_redirect_mode(toks[0].kind),
                target_path: toks[1].text,
            };
            assert(all[1] == toks[1]);
            assert(all.skip(2) =~= toks.skip(2) + suffix);
            lemma_words_before(argv, redirects.push(redirect), toks.skip(2), suffix);
        }
    }
}

/// What is left behind `n` tokens of a line is left behind them before a suffix too.
proof fn lemma_rest_before(toks: Seq<TokenView>, n: nat, suffix: Seq<TokenView>)
    requires
        n <= toks.len(),
    ensures
        rest_of(toks + suffix, n) == rest_of(toks, n) + suffix,
        rest_of(toks, n).len() > 0 ==> {
            &&& (rest_of(toks, n) + suffix)[0] == rest_of(toks, n)[0]
            &&& (rest_of(toks, n) + suffix).skip(1) == rest_of(toks, n).skip(1) + suffix
        },
{
    assert(rest_of(toks + suffix, n) =~= rest_of(toks, n) + suffix);
    if rest_of(toks, n).len() > 0 {
        assert((rest_of(toks, n) + suffix).skip(1) =~= rest_of(toks, n).skip(1) + suffix);
    }
}

/// A line parses alike before the end of its line and before a `)`.
pub proof fn lemma_line_before(toks: Seq<TokenView>, suffix: Seq<TokenView>)
    requires
        ends_line(suffix),
    ensures
        spec_parse_line(toks) is Ok ==> spec_parse_line(toks + suffix) == spec_parse_line(toks),
    decreases toks.len(), 4nat,
{
    lemma_pipe_before(toks, suffix);
    lemma_pipe_ends(toks);
    if let Ok((first, n)) = spec_parse_pipe(toks) {
        let behind = rest_of(toks, n);
        lemma_rest_before(toks, n, suffix);
        lemma_backs_before(first, behind, suffix);
        lemma_backs_end(first, behind);
        if let Ok((left, m)) = spec_parse_backs(first, behind) {
            let rest = rest_of(toks, n + m);
            lemma_rest_before(toks, n + m, suffix);
            if rest.len() > 0 && rest[0].kind == TokenKind::Sequence {
                lemma_line_before(rest.skip(1), suffix);
            } else if rest.len() == 0 {
                assert(rest + suffix =~= suffix);
            }
        }
    }
}

/// `( '&' pipe? )*` parses alike before the end of a line and before a `)`.
pub proof fn lemma_backs_before(left: CommandView, toks: Seq<TokenView>, suffix: Seq<TokenView>)
    requires
        ends_line(suffix),
    ensures
        spec_parse_backs(left, toks) is Ok ==> spec_parse_backs(left, toks + suffix)
            == spec_parse_backs(left, toks),
    decreases toks.len(), 3nat,
{
    let all = toks + suffix;
    if toks.len() == 0 {
        assert(all =~= suffix);
    } else {
        assert(all[0] == toks[0]);
        if toks[0].kind == TokenKind::Background {
            let back = CommandView::Background { inner: Box::new(left) };
            let rest = toks.skip(1);
            assert(all.skip(1) =~= rest + suffix);
            if rest.len() == 0 {
                assert(rest + suffix =~= suffix);
                lemma_backs_before(back, rest, suffix);
            } else {
                assert((rest + suffix)[0] == rest[0]);
                if rest[0].kind == TokenKind::Background || rest[0].kind == TokenKind::Sequence
                    || rest[0].kind == TokenKind::RParen {
                    lemma_backs_before(back, rest, suffix);
                } else {
                    lemma_pipe_before(rest, suffix);
                    lemma_pipe_ends(rest);
                    if let Ok((next, n)) = spec_parse_pipe(rest) {
                        lemma_rest_before(rest, n, suffix);
                        lemma_backs_before(
                            CommandView::Sequence {
                                left: Box::new(back),
                                right: Box::new(next),
                            },
                            rest_of(rest, n),
                            suffix,
                        );
                    }
                }
            }
        }
    }
}

/// A pipeline parses alike before the end of a line and before a `)`.
pub proof fn lemma_pipe_before(toks: Seq<TokenView>, suffix: Seq<TokenView>)
    requires
        ends_line(suffix),
    ensures
        spec_parse_pipe(toks) is Ok ==> spec_parse_pipe(toks + suffix) == spec_parse_pipe(toks),
    decreases toks.len(), 2nat,
{
    lemma_exec_before(toks, suffix);
    lemma_exec_ends(toks);
    if let Ok((left, n)) = spec_parse_exec(toks) {
        let rest = rest_of(toks, n);
        lemma_rest_before(toks, n, suffix);
        if rest.len() > 0 && rest[0].kind == TokenKind::Pipe {
            lemma_pipe_before(rest.skip(1), suffix);
        } else if rest.len() == 0 {
            assert(rest + suffix =~= suffix);
        }
    }
}

/// A unit parses alike before the end of a line and before a `)`.
pub proof fn lemma_exec_before(toks: Seq<TokenView>, suffix: Seq<TokenView>)
    requires
        ends_line(suffix),
    ensures
        spec_parse_exec(toks) is Ok ==> spec_parse_exec(toks + suffix) == spec_parse_exec(toks),
    decreases toks.len(), 1nat,
{
    if toks.len() > 0 {
        assert((toks + suffix)[0] == toks[0]);
        if toks[0].kind == TokenKind::LParen {
            lemma_block_before(toks, suffix);
        } else if toks[0].kind == TokenKind::Regular {
            lemma_words_before(Seq::empty(), Seq::empty(), toks, suffix);
        }
    }
}

/// A group parses alike before the end of a line and before a `)`.
pub proof fn lemma_block_before(toks: Seq<TokenView>, suffix: Seq<TokenView>)
    requires
        ends_line(suffix),
    ensures
        spec_parse_block(toks) is Ok ==> spec_parse_block(toks + suffix) == spec_parse_block(
            toks,
        ),
    decreases toks.len(), 0nat,
{
    if toks.len() > 0 && toks[0].kind == TokenKind::LParen {
        let all = toks + suffix;
        let body = toks.skip(1);
        assert(all[0] == toks[0]);
        assert(all.skip(1) =~= body + suffix);
        lemma_line_before(body, suffix);
        lemma_line_ends(body);
        if let Ok((inner, n)) = spec_parse_line(body) {
            let rest = rest_of(body, n);
            lemma_rest_before(body, n, suffix);
            if rest.len() > 0 && rest[0].kind == TokenKind::RParen {
                lemma_redirs_before(inner, rest.skip(1), suffix);
            }
        }
    }
}

/// A line in parentheses is a line, with the tree of the line inside.
pub proof fn lemma_group_of_line(toks: Seq<TokenView>)
    requires
        spec_parse_line(toks) matches Ok((_, used)) && used == toks.len(),
    ensures
        spec_parse_line(
            seq![operator(TokenKind::LParen)] + toks + seq![operator(TokenKind::RParen)],
        ) == advance(spec_parse_line(toks), 2),
{
    let close = seq![operator(TokenKind::RParen)];
    let group = seq![operator(TokenKind::LParen)] + toks + close;
    let n = toks.len();
    let command = spec_parse_line(toks)->Ok_0.0;
    lemma_line_before(toks, close);
    assert(group[0] == operator(TokenKind::LParen));
    assert(group.skip(1) =~= toks + close);
    assert(rest_of(toks + close, n) =~= close);
    assert(close.skip(1) =~= Seq::<TokenView>::empty());
    assert(spec_parse_redirs(command, close.skip(1)) == Ok::<(CommandView, nat), SyntaxError>(
        (command, 0),
    ));
    assert(spec_parse_block(group) == Ok::<(CommandView, nat), SyntaxError>((command, n + 2)));
    assert(rest_of(group, n + 2) =~= Seq::<TokenView>::empty());
    lemma_lone_unit(group, command, n + 2);
}

/// `)` is no whitespace: it stays where it is when whitespace is skipped.
proof fn lemma_skip_whitespace_closed(s: Seq<char>)
    ensures
        skip_whitespace(s + seq![')']) == skip_whitespace(s) + seq![')'],
    decreases s.len(),
{
    let closed = s + seq![')'];
    if s.len() > 0 && spec_is_whitespace(s[0]) {
        assert(closed[0] == s[0]);
        assert(closed.skip(1) =~= s.skip(1) + seq![')']);
        lemma_skip_whitespace_closed(s.skip(1));
    } else if s.len() > 0 {
        assert(closed[0] == s[0]);
    } else {
        assert(closed[0] == ')');
    }
}

/// `)` is no word character: a word ends before it.
proof fn lemma_word_len_closed(s: Seq<char>)
    ensures
        word_len(s + seq![')']) == word_len(s),
    decreases s.len(),
{
    let closed = s + seq![')'];
    if s.len() > 0 {
        assert(closed[0] == s[0]);
        if is_word_char(s[0]) {
            assert(closed.skip(1) =~= s.skip(1) + seq![')']);
            lemma_word_len_closed(s.skip(1));
        }
    } else {
        assert(closed[0] == ')');
    }
}

/// The tokens of a line behind a `(` are `(` and the tokens of the line.
pub proof fn lemma_tokens_opened(s: Seq<char>)
    ensures
        tokens(seq!['('] + s) == seq![operator(TokenKind::LParen)] + tokens(s),
{
    let opened = seq!['('] + s;
    lemma_operator_text();
    assert(opened[0] == '(');
    assert(skip_whitespace(opened) == opened);
    assert(opened.take(1) =~= seq!['(']);
    assert(opened.skip(1) =~= s);
    lemma_tokens_step(opened);
    lemma_tokens_skip_whitespace(s);
    assert(tokens(opened) =~= seq![tokens(opened)[0]] + tokens(opened).skip(1));
}

/// The tokens of a line before a `)` are the tokens of the line and `)`.
pub proof fn lemma_tokens_closed(s: Seq<char>)
    ensures
        tokens(s + seq![')']) == tokens(s) + seq![operator(TokenKind::RParen)],
    decreases s.len(),
{
    let closed = s + seq![')'];
    let front = skip_whitespace(s);
    lemma_operator_text();
    lemma_skip_whitespace_closed(s);
    lemma_get_token(s);
    lemma_tokens_step(s);
    lemma_tokens_step(closed);
    if front.len() == 0 {
        let only = front + seq![')'];
        assert(only =~= seq![')']);
        assert(only.take(1) =~= seq![')']);
        assert(only.skip(1) =~= Seq::<char>::empty());
        assert(tokens(Seq::<char>::empty()) =~= Seq::<TokenView>::empty());
        assert(tokens(closed) =~= seq![tokens(closed)[0]] + tokens(closed).skip(1));
        assert(tokens(s) =~= Seq::<TokenView>::empty());
    } else {
        let both = front + seq![')'];
        let n = front_len(front) as int;
        lemma_word_len_closed(front);
        lemma_word_len(front);
        assert(both[0] == front[0]);
        if front.len() > 1 {
            assert(both[1] == front[1]);
        } else {
            assert(both[1] == ')');
        }
        assert(front_kind(both) == front_kind(front));
        assert(front_len(both) == n);
        assert(both.take(n) =~= front.take(n));
        assert(both.skip(n) =~= front.skip(n) + seq![')']);
        lemma_skip_whitespace_closed(front.skip(n));
        let rest = skip_whitespace(front.skip(n));
        lemma_tokens_closed(rest);
        assert(tokens(closed) =~= seq![tokens(closed)[0]] + tokens(closed).skip(1));
        assert(tokens(s) =~= seq![tokens(s)[0]] + tokens(s).skip(1));
        assert(tokens(closed) =~= tokens(s) + seq![operator(TokenKind::RParen)]);
    }
}

/// Grouping is transparent: a line that holds a command stands, in
/// parentheses, for the same tree. (A blank line stands for the empty command;
/// `()` is a syntax error.)
pub proof fn group_is_transparent(line: Seq<char>)
    requires
        tokens(line).len() > 0,
    ensures
        spec_parse(line) is Ok ==> spec_parse(seq!['('] + line + seq![')']) == spec_parse(line),
{
    let toks = tokens(line);
    lemma_tokens_closed(line);
    lemma_tokens_opened(line + seq![')']);
    assert(seq!['('] + line + seq![')'] =~= seq!['('] + (line + seq![')']));
    assert(seq![operator(TokenKind::LParen)] + (toks + seq![operator(TokenKind::RParen)])
        =~= seq![operator(TokenKind::LParen)] + toks + seq![operator(TokenKind::RParen)]);
    if spec_parse(line) is Ok {
        lemma_group_of_line(toks);
    }
}

} // verus!
