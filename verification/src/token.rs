//! Tokens, and the cursor primitives that read them off the front of a line.

use vstd::prelude::*;
use vstd::string::StrSliceExecFns;
use crate::chars::{is_symbol, is_whitespace, is_word_char, spec_is_whitespace};
use crate::command::is_word;

verus! {

/// What a token is: a plain word or one of the eight operators.
#[derive(Clone, Copy, Debug, PartialEq, Eq, Structural)]
pub enum TokenKind {
    /// `<`
    LRedir,
    /// `>`
    RRedir,
    /// `>>`
    Append,
    /// A plain word.
    Regular,
    /// `|`
    Pipe,
    /// `;`
    Sequence,
    /// `&`
    Background,
    /// `(`
    LParen,
    /// `)`
    RParen,
}

/// A token: its kind and the piece of the line that it spans.
#[derive(Clone, Copy, Debug)]
pub struct Token<'b> {
    pub kind: TokenKind,
    pub buf: &'b str,
}

/// The mathematical value of a token.
pub struct TokenView {
    pub kind: TokenKind,
    pub text: Seq<char>,
}

impl<'b> View for Token<'b> {
    type V = TokenView;

    open spec fn view(&self) -> TokenView {
        TokenView { kind: self.kind, text: self.buf@ }
    }
}

/// How an operator is written; a plain word has no text of its kind.
pub open spec fn operator_text(kind: TokenKind) -> Seq<char> {
    match kind {
        TokenKind::LRedir => "<"@,
        TokenKind::RRedir => ">"@,
        TokenKind::Append => ">>"@,
        TokenKind::Pipe => "|"@,
        TokenKind::Sequence => ";"@,
        TokenKind::Background => "&"@,
        TokenKind::LParen => "("@,
        TokenKind::RParen => ")"@,
        TokenKind::Regular => Seq::empty(),
    }
}

/// The token of an operator.
pub open spec fn operator(kind: TokenKind) -> TokenView {
    TokenView { kind, text: operator_text(kind) }
}

/// What the operators are made of.
pub proof fn lemma_operator_text()
    ensures
        operator_text(TokenKind::LRedir) == seq!['<'],
        operator_text(TokenKind::RRedir) == seq!['>'],
        operator_text(TokenKind::Append) == seq!['>', '>'],
        operator_text(TokenKind::Pipe) == seq!['|'],
        operator_text(TokenKind::Sequence) == seq![';'],
        operator_text(TokenKind::Background) == seq!['&'],
        operator_text(TokenKind::LParen) == seq!['('],
        operator_text(TokenKind::RParen) == seq![')'],
{
    reveal_strlit("<");
    reveal_strlit(">");
    reveal_strlit(">>");
    reveal_strlit("|");
    reveal_strlit(";");
    reveal_strlit("&");
    reveal_strlit("(");
    reveal_strlit(")");
    assert("<"@ =~= seq!['<']);
    assert(">"@ =~= seq!['>']);
    assert(">>"@ =~= seq!['>', '>']);
    assert("|"@ =~= seq!['|']);
    assert(";"@ =~= seq![';']);
    assert("&"@ =~= seq!['&']);
    assert("("@ =~= seq!['(']);
    assert(")"@ =~= seq![')']);
}

/// `s` without its leading whitespace.
pub open spec fn skip_whitespace(s: Seq<char>) -> Seq<char>
    decreases s.len(),
{
    if s.len() > 0 && spec_is_whitespace(s[0]) {
        skip_whitespace(s.skip(1))
    } else {
        s
    }
}

/// The length of the longest prefix of `s` made of word characters.
pub open spec fn word_len(s: Seq<char>) -> nat
    decreases s.len(),
{
    if s.len() > 0 && is_word_char(s[0]) {
        1 + word_len(s.skip(1))
    } else {
        0
    }
}

/// The kind of the token at the front of `s`, which begins with no whitespace.
pub open spec fn front_kind(s: Seq<char>) -> TokenKind
    recommends
        s.len() > 0,
{
    let c = s[0];
    if c == '<' {
        TokenKind::LRedir
    } else if c == '>' {
        if s.len() > 1 && s[1] == '>' {
            TokenKind::Append
        } else {
            TokenKind::RRedir
        }
    } else if c == '|' {
        TokenKind::Pipe
    } else if c == ';' {
        TokenKind::Sequence
    } else if c == '&' {
        TokenKind::Background
    } else if c == '(' {
        TokenKind::LParen
    } else if c == ')' {
        TokenKind::RParen
    } else {
        TokenKind::Regular
    }
}

/// The number of characters of the token at the front of `s`.
pub open spec fn front_len(s: Seq<char>) -> nat
    recommends
        s.len() > 0,
{
    match front_kind(s) {
        TokenKind::Regular => word_len(s),
        TokenKind::Append => 2,
        _ => 1,
    }
}

/// The first token of `s` and what is left of `s` behind it, or `None` where `s`
/// holds nothing but whitespace. Whitespace on both sides of the token is dropped.
pub open spec fn spec_get_token(s: Seq<char>) -> Option<(TokenView, Seq<char>)> {
    let t = skip_whitespace(s);
    if t.len() == 0 {
        None
    } else {
        let n = front_len(t) as int;
        Some((TokenView { kind: front_kind(t), text: t.take(n) }, skip_whitespace(t.skip(n))))
    }
}

/// Whether the first character of `s` behind its leading whitespace is one of `toks`.
pub open spec fn spec_peek(s: Seq<char>, toks: Seq<char>) -> bool {
    let t = skip_whitespace(s);
    t.len() > 0 && toks.contains(t[0])
}

/// What `skip_whitespace` leaves is a suffix of `s` that begins with no
/// whitespace, and all that it drops is whitespace.
pub proof fn lemma_skip_whitespace(s: Seq<char>)
    ensures
        skip_whitespace(s).len() <= s.len(),
        skip_whitespace(s) == s.skip(s.len() - skip_whitespace(s).len()),
        skip_whitespace(s).len() > 0 ==> !spec_is_whitespace(skip_whitespace(s)[0]),
        skip_whitespace(skip_whitespace(s)) == skip_whitespace(s),
        forall|i: int|
            0 <= i < s.len() - skip_whitespace(s).len() ==> spec_is_whitespace(#[trigger] s[i]),
    decreases s.len(),
{
    if s.len() > 0 && spec_is_whitespace(s[0]) {
        let t = s.skip(1);
        lemma_skip_whitespace(t);
        let k = t.len() - skip_whitespace(t).len();
        assert(t.skip(k) =~= s.skip(k + 1));
        assert forall|i: int|
            0 <= i < s.len() - skip_whitespace(s).len() implies spec_is_whitespace(
            #[trigger] s[i],
        ) by {
            if i > 0 {
                assert(s[i] == t[i - 1]);
            }
        }
    } else {
        assert(s.skip(0) =~= s);
    }
}

/// The word at the front of `s` is made of word characters and ends before
/// one that is none, or at the end of `s`.
pub proof fn lemma_word_len(s: Seq<char>)
    ensures
        word_len(s) <= s.len(),
        forall|i: int| 0 <= i < word_len(s) ==> is_word_char(#[trigger] s[i]),
        word_len(s) < s.len() ==> !is_word_char(s[word_len(s) as int]),
    decreases s.len(),
{
    if s.len() > 0 && is_word_char(s[0]) {
        let t = s.skip(1);
        lemma_word_len(t);
        assert forall|i: int| 0 <= i < word_len(s) implies is_word_char(#[trigger] s[i]) by {
            if i > 0 {
                assert(s[i] == t[i - 1]);
            }
        }
        if word_len(s) < s.len() {
            assert(s[word_len(s) as int] == t[word_len(t) as int]);
        }
    }
}

/// What `spec_get_token` returns is well formed: the token is not empty, what is
/// left is shorter than `s` and begins with no whitespace.
pub proof fn lemma_get_token(s: Seq<char>)
    ensures
        spec_get_token(s) is None <==> skip_whitespace(s).len() == 0,
        spec_get_token(s) matches Some((t, rest)) ==> {
            &&& t.text.len() > 0
            &&& t.text.len() + rest.len() <= s.len()
            &&& rest == skip_whitespace(rest)
            &&& t.kind == front_kind(skip_whitespace(s))
            &&& t.text[0] == skip_whitespace(s)[0]
            &&& t.kind == TokenKind::Regular ==> forall|i: int|
                0 <= i < t.text.len() ==> is_word_char(#[trigger] t.text[i])
        },
{
    lemma_skip_whitespace(s);
    let t = skip_whitespace(s);
    if t.len() > 0 {
        lemma_word_len(t);
        let n = front_len(t) as int;
        lemma_skip_whitespace(t.skip(n));
    }
}

/// All the tokens of `s`, in order.
pub open spec fn tokens(s: Seq<char>) -> Seq<TokenView>
    decreases s.len(),
    via tokens_decreases
{
    match spec_get_token(s) {
        None => Seq::empty(),
        Some((t, rest)) => seq![t] + tokens(rest),
    }
}

#[via_fn]
proof fn tokens_decreases(s: Seq<char>) {
    lemma_get_token(s);
}

/// `s` behind its first `n` tokens and the whitespace that follows them; with
/// `n == 0`, `s` without its leading whitespace.
pub open spec fn drop_tokens(s: Seq<char>, n: nat) -> Seq<char>
    decreases n,
{
    if n == 0 {
        skip_whitespace(s)
    } else {
        match spec_get_token(s) {
            None => Seq::empty(),
            Some((_, rest)) => drop_tokens(rest, (n - 1) as nat),
        }
    }
}

/// `toks` behind its first `n` elements; empty where it has fewer.
pub open spec fn rest_of(toks: Seq<TokenView>, n: nat) -> Seq<TokenView> {
    if n <= toks.len() {
        toks.skip(n as int)
    } else {
        Seq::empty()
    }
}

/// Leading whitespace does not change the tokens of a line.
pub proof fn lemma_tokens_skip_whitespace(s: Seq<char>)
    ensures
        tokens(skip_whitespace(s)) == tokens(s),
        tokens(s).len() == 0 <==> skip_whitespace(s).len() == 0,
        tokens(s).len() > 0 ==> tokens(s)[0].kind == front_kind(skip_whitespace(s)),
{
    lemma_skip_whitespace(s);
    lemma_get_token(s);
    assert(spec_get_token(skip_whitespace(s)) == spec_get_token(s));
}

/// Reading one token takes the first element off the token sequence.
pub proof fn lemma_tokens_step(s: Seq<char>)
    ensures
        spec_get_token(s) is None <==> tokens(s).len() == 0,
        spec_get_token(s) matches Some((t, rest)) ==> {
            &&& tokens(s)[0] == t
            &&& tokens(s).skip(1) == tokens(rest)
            &&& rest == drop_tokens(s, 1)
        },
{
    lemma_get_token(s);
    match spec_get_token(s) {
        None => {},
        Some((t, rest)) => {
            assert((seq![t] + tokens(rest)).skip(1) =~= tokens(rest));
            assert(drop_tokens(s, 1) == drop_tokens(rest, 0));
        },
    }
}

/// The tokens behind the first `n` are those of the line behind them, and
/// dropping tokens in two steps is dropping them in one.
pub proof fn lemma_drop_tokens(s: Seq<char>, n: nat, m: nat)
    ensures
        tokens(drop_tokens(s, n)) == rest_of(tokens(s), n),
        drop_tokens(drop_tokens(s, n), m) == drop_tokens(s, n + m),
        skip_whitespace(drop_tokens(s, n)) == drop_tokens(s, n),
    decreases n,
{
    lemma_tokens_step(s);
    lemma_get_token(s);
    lemma_skip_whitespace(s);
    if n == 0 {
        lemma_tokens_skip_whitespace(s);
        assert(tokens(s).skip(0) =~= tokens(s));
        lemma_drop_tokens_skip_whitespace(s, m);
    } else {
        match spec_get_token(s) {
            None => {
                assert(tokens(Seq::<char>::empty()) =~= Seq::<TokenView>::empty());
                lemma_drop_tokens_empty(m);
            },
            Some((t, rest)) => {
                lemma_drop_tokens(rest, (n - 1) as nat, m);
                if n <= tokens(s).len() {
                    assert(tokens(s).skip(1).skip(n - 1) =~= tokens(s).skip(n as int));
                }
            },
        }
    }
}

/// Nothing can be dropped from an empty line.
pub proof fn lemma_drop_tokens_empty(n: nat)
    ensures
        drop_tokens(Seq::<char>::empty(), n) == Seq::<char>::empty(),
{
}

/// Leading whitespace does not change what is left behind `n` tokens.
pub proof fn lemma_drop_tokens_skip_whitespace(s: Seq<char>, n: nat)
    ensures
        drop_tokens(skip_whitespace(s), n) == drop_tokens(s, n),
{
    lemma_skip_whitespace(s);
    assert(spec_get_token(skip_whitespace(s)) == spec_get_token(s));
}

/// Dropping tokens never lengthens a line, and shortens one that has a token.
pub proof fn lemma_drop_tokens_len(s: Seq<char>, n: nat)
    ensures
        drop_tokens(s, n).len() <= s.len(),
        n > 0 && tokens(s).len() > 0 ==> drop_tokens(s, n).len() < s.len(),
    decreases n,
{
    lemma_skip_whitespace(s);
    lemma_get_token(s);
    lemma_tokens_step(s);
    if n > 0 {
        match spec_get_token(s) {
            None => {},
            Some((t, rest)) => {
                lemma_drop_tokens_len(rest, (n - 1) as nat);
            },
        }
    }
}

/// A token sequence as the tokenizer gives it: each plain word is a word.
pub open spec fn well_lexed(toks: Seq<TokenView>) -> bool {
    forall|i: int|
        0 <= i < toks.len() && (#[trigger] toks[i]).kind == TokenKind::Regular ==> is_word(
            toks[i].text,
        )
}

/// The tokens of any line are well lexed.
pub proof fn lemma_tokens_well_lexed(s: Seq<char>)
    ensures
        well_lexed(tokens(s)),
    decreases s.len(),
{
    lemma_get_token(s);
    match spec_get_token(s) {
        None => {},
        Some((t, rest)) => {
            lemma_tokens_well_lexed(rest);
            let toks = tokens(s);
            assert forall|i: int|
                0 <= i < toks.len() && (#[trigger] toks[i]).kind
                    == TokenKind::Regular implies is_word(toks[i].text) by {
                if i > 0 {
                    assert(toks[i] == tokens(rest)[i - 1]);
                }
            }
        },
    }
}

/// A run of whitespace at the front of `s` that ends at `i` is all that `skip_whitespace` drops.
proof fn lemma_skip_whitespace_at(s: Seq<char>, i: int)
    requires
        0 <= i <= s.len(),
        forall|j: int| 0 <= j < i ==> spec_is_whitespace(#[trigger] s[j]),
        i < s.len() ==> !spec_is_whitespace(s[i]),
    ensures
        skip_whitespace(s) == s.skip(i),
    decreases i,
{
    if i == 0 {
        assert(s.skip(0) =~= s);
    } else {
        let t = s.skip(1);
        assert forall|j: int| 0 <= j < i - 1 implies spec_is_whitespace(#[trigger] t[j]) by {
            assert(t[j] == s[j + 1]);
        }
        lemma_skip_whitespace_at(t, i - 1);
        assert(t.skip(i - 1) =~= s.skip(i));
    }
}

/// A run of word characters at the front of `s` that ends at `i` is the word that begins `s`.
pub proof fn lemma_word_len_at(s: Seq<char>, i: int)
    requires
        0 <= i <= s.len(),
        forall|j: int| 0 <= j < i ==> is_word_char(#[trigger] s[j]),
        i < s.len() ==> !is_word_char(s[i]),
    ensures
        word_len(s) == i,
    decreases i,
{
    if i > 0 {
        let t = s.skip(1);
        assert forall|j: int| 0 <= j < i - 1 implies is_word_char(#[trigger] t[j]) by {
            assert(t[j] == s[j + 1]);
        }
        lemma_word_len_at(t, i - 1);
    }
}

/// Moves the cursor past the whitespace at its front.
fn skip_blanks<'b>(ps: &mut &'b str)
    ensures
        (*final(ps))@ == skip_whitespace((*old(ps))@),
{
    let s: &'b str = *ps;
    let n: usize = s.unicode_len();
    let mut i: usize = 0;
    while i < n && is_whitespace(s.get_char(i))
        invariant
            n == s@.len(),
            i <= n,
            forall|j: int| 0 <= j < i ==> spec_is_whitespace(#[trigger] s@[j]),
        decreases n - i,
    {
        i += 1;
    }
    proof {
        lemma_skip_whitespace_at(s@, i as int);
    }
    *ps = s.substring_char(i, n);
}

/// Whether `c` occurs in `toks`.
fn holds_char(toks: &str, c: char) -> (r: bool)
    ensures
        r == toks@.contains(c),
{
    let n: usize = toks.unicode_len();
    let mut i: usize = 0;
    while i < n
        invariant
            n == toks@.len(),
            i <= n,
            forall|j: int| 0 <= j < i ==> toks@[j] != c,
        decreases n - i,
    {
        if toks.get_char(i) == c {
            return true;
        }
        i += 1;
    }
    false
}

/// Drops the first character of the cursor and returns what is left.
/// An empty cursor stays empty.
pub fn next_char<'b>(ps: &mut &'b str) -> (r: &'b str)
    ensures
        r@ == (*final(ps))@,
        (*old(ps))@.len() > 0 ==> (*final(ps))@ == (*old(ps))@.skip(1),
        (*old(ps))@.len() == 0 ==> (*final(ps))@ == (*old(ps))@,
{
    let s: &'b str = *ps;
    let n: usize = s.unicode_len();
    if n > 0 {
        let t: &'b str = s.substring_char(1, n);
        *ps = t;
        t
    } else {
        s
    }
}

/// Looks at the next character that is not whitespace, without consuming it: the
/// cursor moves past leading whitespace only. Returns whether that character is
/// one of `toks`; on a cursor with nothing but whitespace left, `false`.
pub fn peek(ps: &mut &str, toks: &str) -> (r: bool)
    ensures
        (*final(ps))@ == skip_whitespace((*old(ps))@),
        r == spec_peek((*old(ps))@, toks@),
{
    skip_blanks(ps);
    let s: &str = *ps;
    if s.unicode_len() == 0 {
        return false;
    }
    holds_char(toks, s.get_char(0))
}

/// Reads the next token off the cursor, dropping the whitespace before and
/// behind it. Returns `None`, and leaves the cursor empty, where nothing but
/// whitespace is left.
pub fn get_token<'b>(ps: &mut &'b str) -> (r: Option<Token<'b>>)
    ensures
        match spec_get_token((*old(ps))@) {
            Some((t, rest)) => r is Some && r->Some_0@ == t && (*final(ps))@ == rest,
            None => r is None && (*final(ps))@.len() == 0,
        },
{
    proof {
        lemma_skip_whitespace((*ps)@);
    }
    skip_blanks(ps);
    let s: &'b str = *ps;
    let n: usize = s.unicode_len();
    if n == 0 {
        return None;
    }
    let c: char = s.get_char(0);
    let mut kind: TokenKind = TokenKind::Regular;
    let mut len: usize = 1;
    if c == '<' {
        kind = TokenKind::LRedir;
    } else if c == '>' {
        if n > 1 && s.get_char(1) == '>' {
            kind = TokenKind::Append;
            len = 2;
        } else {
            kind = TokenKind::RRedir;
        }
    } else if c == '|' {
        kind = TokenKind::Pipe;
    } else if c == ';' {
        kind = TokenKind::Sequence;
    } else if c == '&' {
        kind = TokenKind::Background;
    } else if c == '(' {
        kind = TokenKind::LParen;
    } else if c == ')' {
        kind = TokenKind::RParen;
    } else {
        while len < n && !is_whitespace(s.get_char(len)) && !is_symbol(s.get_char(len))
            invariant
                n == s@.len(),
                1 <= len <= n,
                forall|j: int| 0 <= j < len ==> is_word_char(#[trigger] s@[j]),
            decreases n - len,
        {
            len += 1;
        }
        proof {
            lemma_word_len_at(s@, len as int);
        }
    }
    let buf: &'b str = s.substring_char(0, len);
    *ps = s.substring_char(len, n);
    skip_blanks(ps);
    assert(s@.subrange(0, len as int) == s@.take(len as int));
    assert(s@.subrange(len as int, n as int) == s@.skip(len as int));
    Some(Token { kind, buf })
}

} // verus!
