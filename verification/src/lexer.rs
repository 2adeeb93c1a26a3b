//! The token source: splits a text into a contiguous token sequence ending in
//! an end-of-file token. `lex_from` is the mathematical description of the
//! scan; `tokenize` is proved to return exactly that sequence.

use vstd::prelude::*;

use crate::kind::SyntaxKind;
use crate::text::TextRange;

verus! {

/// A token: its kind and the half-open range of text it covers.
#[derive(Clone, Copy, Debug, PartialEq, Eq, Structural)]
pub struct Token {
    pub kind: SyntaxKind,
    pub range: TextRange,
}

pub open spec fn is_ws(c: char) -> bool {
    c == ' ' || c == '\t' || c == '\n' || c == '\r'
}

pub open spec fn is_digit(c: char) -> bool {
    '0' <= c && c <= '9'
}

pub open spec fn is_ident_start(c: char) -> bool {
    ('a' <= c && c <= 'z') || ('A' <= c && c <= 'Z') || c == '_' || c == '$'
}

pub open spec fn is_ident_cont(c: char) -> bool {
    is_ident_start(c) || is_digit(c)
}

/// End of the whitespace run beginning at `i`.
pub open spec fn ws_end(src: Seq<char>, i: int) -> int
    decreases src.len() - i,
{
    if i < src.len() && is_ws(src[i]) {
        ws_end(src, i + 1)
    } else {
        i
    }
}

/// End of the identifier-continuation run beginning at `i`.
pub open spec fn ident_end(src: Seq<char>, i: int) -> int
    decreases src.len() - i,
{
    if i < src.len() && is_ident_cont(src[i]) {
        ident_end(src, i + 1)
    } else {
        i
    }
}

/// End of the digit run beginning at `i`.
pub open spec fn num_end(src: Seq<char>, i: int) -> int
    decreases src.len() - i,
{
    if i < src.len() && is_digit(src[i]) {
        num_end(src, i + 1)
    } else {
        i
    }
}

pub open spec fn let_text() -> Seq<char> {
    seq!['l', 'e', 't']
}

pub open spec fn const_text() -> Seq<char> {
    seq!['c', 'o', 'n', 's', 't']
}

/// Keywords are identified after the identifier run is scanned.
pub open spec fn ident_kind(text: Seq<char>) -> SyntaxKind {
    if text == let_text() {
        SyntaxKind::LetKw
    } else if text == const_text() {
        SyntaxKind::ConstKw
    } else {
        SyntaxKind::Ident
    }
}

/// Kind of a one-character token that is no run, `=` or `.`.
pub open spec fn punct_kind(c: char) -> SyntaxKind {
    if c == ';' {
        SyntaxKind::Semicolon
    } else if c == ',' {
        SyntaxKind::Comma
    } else if c == '<' {
        SyntaxKind::LAngle
    } else if c == '>' {
        SyntaxKind::RAngle
    } else if c == '[' {
        SyntaxKind::LBrack
    } else if c == ']' {
        SyntaxKind::RBrack
    } else if c == '{' {
        SyntaxKind::LCurly
    } else if c == '}' {
        SyntaxKind::RCurly
    } else if c == ':' {
        SyntaxKind::Colon
    } else {
        SyntaxKind::ErrorToken
    }
}

pub open spec fn spec_range(start: int, end: int) -> TextRange {
    TextRange { start: start as usize, end: end as usize }
}

/// The token that begins at position `i` of `src`.
pub open spec fn token_at(src: Seq<char>, i: int) -> Token
    recommends
        0 <= i < src.len(),
{
    let c = src[i];
    if is_ws(c) {
        Token { kind: SyntaxKind::Whitespace, range: spec_range(i, ws_end(src, i)) }
    } else if is_ident_start(c) {
        let e = ident_end(src, i);
        Token { kind: ident_kind(src.subrange(i, e)), range: spec_range(i, e) }
    } else if is_digit(c) {
        Token { kind: SyntaxKind::Number, range: spec_range(i, num_end(src, i)) }
    } else if c == '=' {
        if i + 1 < src.len() && src[i + 1] == '=' {
            if i + 2 < src.len() && src[i + 2] == '=' {
                Token { kind: SyntaxKind::Eq3, range: spec_range(i, i + 3) }
            } else {
                Token { kind: SyntaxKind::Eq2, range: spec_range(i, i + 2) }
            }
        } else {
            Token { kind: SyntaxKind::Eq, range: spec_range(i, i + 1) }
        }
    } else if c == '.' {
        if i + 2 < src.len() && src[i + 1] == '.' && src[i + 2] == '.' {
            Token { kind: SyntaxKind::DotDotDot, range: spec_range(i, i + 3) }
        } else {
            Token { kind: SyntaxKind::ErrorToken, range: spec_range(i, i + 1) }
        }
    } else {
        Token { kind: punct_kind(c), range: spec_range(i, i + 1) }
    }
}

pub open spec fn eof_token(n: int) -> Token {
    Token { kind: SyntaxKind::Eof, range: spec_range(n, n) }
}

proof fn lemma_ws_end_bounds(src: Seq<char>, i: int)
    requires
        0 <= i <= src.len(),
    ensures
        i <= ws_end(src, i) <= src.len(),
    decreases src.len() - i,
{
    if i < src.len() && is_ws(src[i]) {
        lemma_ws_end_bounds(src, i + 1);
    }
}

proof fn lemma_ident_end_bounds(src: Seq<char>, i: int)
    requires
        0 <= i <= src.len(),
    ensures
        i <= ident_end(src, i) <= src.len(),
    decreases src.len() - i,
{
    if i < src.len() && is_ident_cont(src[i]) {
        lemma_ident_end_bounds(src, i + 1);
    }
}

proof fn lemma_num_end_bounds(src: Seq<char>, i: int)
    requires
        0 <= i <= src.len(),
    ensures
        i <= num_end(src, i) <= src.len(),
    decreases src.len() - i,
{
    if i < src.len() && is_digit(src[i]) {
        lemma_num_end_bounds(src, i + 1);
    }
}

/// Every token makes progress and stays inside the text.
pub proof fn lemma_token_at_advances(src: Seq<char>, i: int)
    requires
        0 <= i < src.len(),
        src.len() <= usize::MAX,
    ensures
        i < token_at(src, i).range.end <= src.len(),
        token_at(src, i).range.start == i,
        token_at(src, i).kind != SyntaxKind::Eof,
        token_at(src, i).kind != SyntaxKind::Missing,
        token_at(src, i).kind != SyntaxKind::Tombstone,
{
    let c = src[i];
    if is_ws(c) {
        lemma_ws_end_bounds(src, i + 1);
        assert(ws_end(src, i) == ws_end(src, i + 1));
    } else if is_ident_start(c) {
        lemma_ident_end_bounds(src, i + 1);
        assert(ident_end(src, i) == ident_end(src, i + 1));
        assert(ident_kind(src.subrange(i, ident_end(src, i))) != SyntaxKind::Eof);
    } else if is_digit(c) {
        lemma_num_end_bounds(src, i + 1);
        assert(num_end(src, i) == num_end(src, i + 1));
    }
}

/// The full token sequence of `src` from position `i` on.
pub open spec fn lex_from(src: Seq<char>, i: int) -> Seq<Token>
    decreases src.len() - i
        when 0 <= i <= src.len() <= usize::MAX
        via lex_from_decreases
{
    if i >= src.len() {
        seq![eof_token(src.len() as int)]
    } else {
        seq![token_at(src, i)] + lex_from(src, token_at(src, i).range.end as int)
    }
}

#[via_fn]
proof fn lex_from_decreases(src: Seq<char>, i: int) {
    if i < src.len() {
        lemma_token_at_advances(src, i);
    }
}

/// Well-formedness of the token sequence handed to the parser: the tokens are
/// contiguous from `from`, each non-final token is non-empty and not
/// end-of-file, and the sequence closes with the end-of-file token at `n`.
/// Opaque: proofs take what they need through [`lemma_chained_facts`].
#[verifier::opaque]
pub open spec fn token_seq_chained(toks: Seq<Token>, from: int, n: int) -> bool {
    &&& toks.len() >= 1
    &&& toks[0].range.start == from
    &&& forall|k1: int, k2: int|
        0 <= k1 && k2 == k1 + 1 && k2 < toks.len() ==> (#[trigger] toks[k1]).range.end == (
        #[trigger] toks[k2]).range.start
    &&& toks[toks.len() - 1] == eof_token(n)
    &&& forall|k: int|
        0 <= k < toks.len() - 1 ==> {
            &&& (#[trigger] toks[k]).range.start < toks[k].range.end <= n
            &&& toks[k].kind != SyntaxKind::Eof
        }
    &&& forall|k: int|
        0 <= k < toks.len() ==> (#[trigger] toks[k]).kind != SyntaxKind::Missing && toks[k].kind
            != SyntaxKind::Tombstone
}

/// What holds of one token of a chained sequence.
pub proof fn lemma_chained_facts(toks: Seq<Token>, from: int, n: int, k: int)
    requires
        token_seq_chained(toks, from, n),
        0 <= k,
    ensures
        toks.len() >= 1,
        toks[toks.len() - 1] == eof_token(n),
        toks[0].range.start == from,
        k < toks.len() - 1 ==> toks[k].range.start < toks[k].range.end <= n && toks[k].kind
            != SyntaxKind::Eof,
        k < toks.len() ==> toks[k].kind != SyntaxKind::Missing && toks[k].kind
            != SyntaxKind::Tombstone,
        0 < k < toks.len() ==> toks[k].range.start == toks[k - 1].range.end,
{
    reveal(token_seq_chained);
}

/// Extending a chained sequence by one leading token keeps it chained.
proof fn lemma_chained_cons(t: Token, rest: Seq<Token>, from: int, e: int, n: int)
    requires
        token_seq_chained(rest, e, n),
        t.range.start == from,
        t.range.end == e,
        from < e <= n,
        t.kind != SyntaxKind::Eof,
        t.kind != SyntaxKind::Missing,
        t.kind != SyntaxKind::Tombstone,
    ensures
        token_seq_chained(seq![t] + rest, from, n),
{
    reveal(token_seq_chained);
    let whole = seq![t] + rest;
    assert(whole[0] == t);
    assert(whole.len() == 1 + rest.len());
    assert forall|k: int| 1 <= k < whole.len() implies #[trigger] whole[k] == rest[k - 1] by {}
    assert(whole[whole.len() - 1] == rest[rest.len() - 1]);
    assert forall|k1: int, k2: int|
        0 <= k1 && k2 == k1 + 1 && k2 < whole.len() implies (#[trigger] whole[k1]).range.end == (
    #[trigger] whole[k2]).range.start by {
        if k1 == 0 {
            assert(whole[1] == rest[0]);
            assert(rest[0].range.start == e);
        } else {
            assert(whole[k1] == rest[k1 - 1]);
            assert(whole[k2] == rest[k2 - 1]);
        }
    }
}

/// `lex_from` produces a chained token sequence.
#[verifier::rlimit(100)]
#[verifier::spinoff_prover]
pub proof fn lemma_lex_from_chained(src: Seq<char>, i: int)
    requires
        0 <= i <= src.len() <= usize::MAX,
    ensures
        token_seq_chained(lex_from(src, i), i, src.len() as int),
    decreases src.len() - i,
{
    if i >= src.len() {
        assert(token_seq_chained(lex_from(src, i), i, src.len() as int)) by {
            reveal(token_seq_chained);
        }
    } else {
        let t = token_at(src, i);
        lemma_token_at_advances(src, i);
        lemma_lex_from_chained(src, t.range.end as int);
        let rest = lex_from(src, t.range.end as int);
        assert(lex_from(src, i) == seq![t] + rest);
        lemma_chained_cons(t, rest, i, t.range.end as int, src.len() as int);
    }
}

/// Scans the whitespace run beginning at `i`.
fn scan_ws(src: &Vec<char>, i: usize) -> (e: usize)
    requires
        i <= src@.len(),
    ensures
        e == ws_end(src@, i as int),
        i <= e <= src@.len(),
{
    let mut j = i;
    while j < src.len() && is_ws_exec(src[j])
        invariant
            i <= j <= src@.len(),
            ws_end(src@, i as int) == ws_end(src@, j as int),
        decreases src@.len() - j,
    {
        j = j + 1;
    }
    proof {
        assert(ws_end(src@, j as int) == j);
    }
    j
}

/// Scans the identifier run beginning at `i`.
fn scan_ident(src: &Vec<char>, i: usize) -> (e: usize)
    requires
        i <= src@.len(),
    ensures
        e == ident_end(src@, i as int),
        i <= e <= src@.len(),
{
    let mut j = i;
    while j < src.len() && is_ident_cont_exec(src[j])
        invariant
            i <= j <= src@.len(),
            ident_end(src@, i as int) == ident_end(src@, j as int),
        decreases src@.len() - j,
    {
        j = j + 1;
    }
    proof {
        assert(ident_end(src@, j as int) == j);
    }
    j
}

/// Scans the digit run beginning at `i`.
fn scan_num(src: &Vec<char>, i: usize) -> (e: usize)
    requires
        i <= src@.len(),
    ensures
        e == num_end(src@, i as int),
        i <= e <= src@.len(),
{
    let mut j = i;
    while j < src.len() && is_digit_exec(src[j])
        invariant
            i <= j <= src@.len(),
            num_end(src@, i as int) == num_end(src@, j as int),
        decreases src@.len() - j,
    {
        j = j + 1;
    }
    proof {
        assert(num_end(src@, j as int) == j);
    }
    j
}

fn is_ws_exec(c: char) -> (b: bool)
    ensures
        b == is_ws(c),
{
    c == ' ' || c == '\t' || c == '\n' || c == '\r'
}

fn is_digit_exec(c: char) -> (b: bool)
    ensures
        b == is_digit(c),
{
    '0' <= c && c <= '9'
}

fn is_ident_start_exec(c: char) -> (b: bool)
    ensures
        b == is_ident_start(c),
{
    ('a' <= c && c <= 'z') || ('A' <= c && c <= 'Z') || c == '_' || c == '$'
}

fn is_ident_cont_exec(c: char) -> (b: bool)
    ensures
        b == is_ident_cont(c),
{
    is_ident_start_exec(c) || is_digit_exec(c)
}

/// Reads the single token beginning at position `i`.
fn next_token(src: &Vec<char>, i: usize) -> (t: Token)
    requires
        i < src@.len(),
    ensures
        t == token_at(src@, i as int),
        i < t.range.end <= src@.len(),
        t.range.start == i,
{
    proof {
        assert(src.len() == src@.len());
        lemma_token_at_advances(src@, i as int);
    }
    let c = src[i];
    if is_ws_exec(c) {
        let e = scan_ws(src, i);
        Token { kind: SyntaxKind::Whitespace, range: TextRange { start: i, end: e } }
    } else if is_ident_start_exec(c) {
        let e = scan_ident(src, i);
        let kind = if e - i == 3 && src[i] == 'l' && src[i + 1] == 'e' && src[i + 2] == 't' {
            proof {
                assert(src@.subrange(i as int, e as int) =~= let_text());
            }
            SyntaxKind::LetKw
        } else if e - i == 5 && src[i] == 'c' && src[i + 1] == 'o' && src[i + 2] == 'n' && src[i
            + 3] == 's' && src[i + 4] == 't' {
            proof {
                assert(src@.subrange(i as int, e as int) =~= const_text());
            }
            SyntaxKind::ConstKw
        } else {
            proof {
                let text = src@.subrange(i as int, e as int);
                assert(text.len() == e - i);
                assert(forall|k: int| 0 <= k < text.len() ==> text[k] == src@[i + k]);
                assert(text != let_text() && text != const_text());
            }
            SyntaxKind::Ident
        };
        Token { kind, range: TextRange { start: i, end: e } }
    } else if is_digit_exec(c) {
        let e = scan_num(src, i);
        Token { kind: SyntaxKind::Number, range: TextRange { start: i, end: e } }
    } else if c == '=' {
        if i + 1 < src.len() && src[i + 1] == '=' {
            if i + 2 < src.len() && src[i + 2] == '=' {
                Token { kind: SyntaxKind::Eq3, range: TextRange { start: i, end: i + 3 } }
            } else {
                Token { kind: SyntaxKind::Eq2, range: TextRange { start: i, end: i + 2 } }
            }
        } else {
            Token { kind: SyntaxKind::Eq, range: TextRange { start: i, end: i + 1 } }
        }
    } else if c == '.' {
        if i + 1 < src.len() && src[i + 1] == '.' && i + 2 < src.len() && src[i + 2] == '.' {
            Token { kind: SyntaxKind::DotDotDot, range: TextRange { start: i, end: i + 3 } }
        } else {
            Token { kind: SyntaxKind::ErrorToken, range: TextRange { start: i, end: i + 1 } }
        }
    } else {
        let kind = if c == ';' {
            SyntaxKind::Semicolon
        } else if c == ',' {
            SyntaxKind::Comma
        } else if c == '<' {
            SyntaxKind::LAngle
        } else if c == '>' {
            SyntaxKind::RAngle
        } else if c == '[' {
            SyntaxKind::LBrack
        } else if c == ']' {
            SyntaxKind::RBrack
        } else if c == '{' {
            SyntaxKind::LCurly
        } else if c == '}' {
            SyntaxKind::RCurly
        } else if c == ':' {
            SyntaxKind::Colon
        } else {
            SyntaxKind::ErrorToken
        };
        Token { kind, range: TextRange { start: i, end: i + 1 } }
    }
}

/// Splits `src` into its tokens, ending with the end-of-file token.
pub fn tokenize(src: &Vec<char>) -> (r: Vec<Token>)
    ensures
        r@ == lex_from(src@, 0),
        token_seq_chained(r@, 0, src@.len() as int),
{
    let mut r: Vec<Token> = Vec::new();
    let mut i: usize = 0;
    proof {
        assert(r@ + lex_from(src@, 0) =~= lex_from(src@, 0));
    }
    while i < src.len()
        invariant
            i <= src@.len(),
            lex_from(src@, 0) == r@ + lex_from(src@, i as int),
        decreases src@.len() - i,
    {
        let ghost i0 = i as int;
        let ghost r0 = r@;
        let t = next_token(src, i);
        r.push(t);
        i = t.range.end;
        proof {
            assert(lex_from(src@, i0) == seq![t] + lex_from(src@, i as int));
            assert(r0 + (seq![t] + lex_from(src@, i as int)) =~= r@ + lex_from(
                src@,
                i as int,
            ));
        }
    }
    let ghost r1 = r@;
    r.push(
        Token {
            kind: SyntaxKind::Eof,
            range: TextRange { start: src.len(), end: src.len() },
        },
    );
    proof {
        assert(lex_from(src@, i as int) =~= seq![eof_token(src@.len() as int)]);
        assert(r1 + lex_from(src@, i as int) =~= r@);
        lemma_lex_from_chained(src@, 0);
    }
    r
}

} // verus!
