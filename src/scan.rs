//! Cursor scanners: they move a position forward to a delimiter and never
//! read past the end of the token stream.
use vstd::prelude::*;
use crate::lexeme::{Token, TokenType, TokenView, kind_at, model};

verus! {

/// The first position at or after `i` holding a token of kind `t`, or the
/// length of `s` when there is none.
pub open spec fn find_kind(s: Seq<TokenView>, i: int, t: TokenType) -> int
    decreases s.len() - i,
{
    if i >= s.len() {
        s.len() as int
    } else if kind_at(s, i) == t {
        i
    } else {
        find_kind(s, i + 1, t)
    }
}

/// The position just after the first semicolon at or after `i`, or the length
/// of `s` when there is none.
pub open spec fn stmt_end(s: Seq<TokenView>, i: int) -> int {
    let j = find_kind(s, i, TokenType::SEMICOLON);
    if j < s.len() {
        j + 1
    } else {
        s.len() as int
    }
}

/// Scanning from `i` inside a brace block with `extra` unclosed inner blocks:
/// the position just after the brace that closes the block, or the length of
/// `s` when the block is never closed.
pub open spec fn block_end(s: Seq<TokenView>, i: int, extra: nat) -> int
    decreases s.len() - i,
{
    if i >= s.len() {
        s.len() as int
    } else if kind_at(s, i) == TokenType::RIGHT_CBRACE {
        if extra == 0 {
            i + 1
        } else {
            block_end(s, i + 1, (extra - 1) as nat)
        }
    } else if kind_at(s, i) == TokenType::LEFT_CBRACE {
        block_end(s, i + 1, extra + 1)
    } else {
        block_end(s, i + 1, extra)
    }
}

/// Whether a token of kind `t` ends the statements of a `case` arm.
pub open spec fn ends_case_arm(t: TokenType) -> bool {
    t == TokenType::KEYWORD_CASE || t == TokenType::KEYWORD_DEFAULT || t
        == TokenType::RIGHT_CBRACE
}

/// The first position at or after `i` holding `case`, `default` or a closing
/// brace, or the length of `s` when there is none.
pub open spec fn case_arm_end(s: Seq<TokenView>, i: int) -> int
    decreases s.len() - i,
{
    if i >= s.len() {
        s.len() as int
    } else if ends_case_arm(kind_at(s, i)) {
        i
    } else {
        case_arm_end(s, i + 1)
    }
}

/// The first position at or after `i` holding a semicolon or a comma, or the
/// length of `s` when there is none.
pub open spec fn term_pos(s: Seq<TokenView>, i: int) -> int
    decreases s.len() - i,
{
    if i >= s.len() {
        s.len() as int
    } else if kind_at(s, i) == TokenType::SEMICOLON || kind_at(s, i) == TokenType::COMMA {
        i
    } else {
        term_pos(s, i + 1)
    }
}

pub proof fn lemma_find_kind(s: Seq<TokenView>, i: int, t: TokenType)
    ensures
        i <= s.len() ==> i <= find_kind(s, i, t) <= s.len(),
        i > s.len() ==> find_kind(s, i, t) == s.len(),
        find_kind(s, i, t) < s.len() ==> kind_at(s, find_kind(s, i, t)) == t,
        forall|k: int| i <= k < find_kind(s, i, t) ==> kind_at(s, k) != t,
    decreases s.len() - i,
{
    if i < s.len() && kind_at(s, i) != t {
        lemma_find_kind(s, i + 1, t);
    }
}

/// A scan for `t` from `i` stops at `j` when nothing of kind `t` stands
/// between them.
pub proof fn lemma_find_kind_at(s: Seq<TokenView>, i: int, j: int, t: TokenType)
    requires
        i <= j,
        j < s.len() ==> kind_at(s, j) == t,
        j <= s.len(),
        forall|k: int| i <= k < j ==> kind_at(s, k) != t,
    ensures
        find_kind(s, i, t) == j,
    decreases j - i,
{
    if i < j {
        lemma_find_kind_at(s, i + 1, j, t);
    }
}

pub proof fn lemma_stmt_end(s: Seq<TokenView>, i: int)
    ensures
        i < s.len() ==> i < stmt_end(s, i) <= s.len(),
        i >= s.len() ==> stmt_end(s, i) == s.len(),
{
    lemma_find_kind(s, i, TokenType::SEMICOLON);
}

pub proof fn lemma_block_end(s: Seq<TokenView>, i: int, extra: nat)
    ensures
        i < s.len() ==> i < block_end(s, i, extra) <= s.len(),
        i >= s.len() ==> block_end(s, i, extra) == s.len(),
    decreases s.len() - i,
{
    if i < s.len() {
        if kind_at(s, i) == TokenType::RIGHT_CBRACE {
            if extra != 0 {
                lemma_block_end(s, i + 1, (extra - 1) as nat);
            }
        } else if kind_at(s, i) == TokenType::LEFT_CBRACE {
            lemma_block_end(s, i + 1, extra + 1);
        } else {
            lemma_block_end(s, i + 1, extra);
        }
    }
}

pub proof fn lemma_case_arm_end(s: Seq<TokenView>, i: int)
    ensures
        i <= s.len() ==> i <= case_arm_end(s, i) <= s.len(),
        i > s.len() ==> case_arm_end(s, i) == s.len(),
    decreases s.len() - i,
{
    if i < s.len() && !ends_case_arm(kind_at(s, i)) {
        lemma_case_arm_end(s, i + 1);
    }
}

pub proof fn lemma_term_pos(s: Seq<TokenView>, i: int)
    ensures
        i <= s.len() ==> i <= term_pos(s, i) <= s.len(),
        i > s.len() ==> term_pos(s, i) == s.len(),
    decreases s.len() - i,
{
    if i < s.len() && kind_at(s, i) != TokenType::SEMICOLON && kind_at(s, i)
        != TokenType::COMMA {
        lemma_term_pos(s, i + 1);
    }
}

/// Moves `i` forward to the first token of kind `t`, or to the end.
pub fn find(v: &Vec<Token>, i: usize, t: TokenType) -> (r: usize)
    ensures
        r == find_kind(model(v@), i as int, t),
{
    let mut j: usize = i;
    if j > v.len() {
        return v.len();
    }
    while j < v.len() && v[j].kind != t
        invariant
            i <= j <= v.len(),
            find_kind(model(v@), j as int, t) == find_kind(model(v@), i as int, t),
        decreases v.len() - j,
    {
        j += 1;
    }
    j
}

/// Advances past the next semicolon: the position just after it, or the end
/// of the stream when there is none.
pub fn skip_stmt(v: &Vec<Token>, i: usize) -> (r: usize)
    ensures
        r == stmt_end(model(v@), i as int),
{
    let j = find(v, i, TokenType::SEMICOLON);
    if j < v.len() {
        j + 1
    } else {
        v.len()
    }
}

/// From a position just inside an opening brace, advances past the brace
/// that closes it, skipping nested blocks; stops at the end of the stream.
pub fn skip_block(v: &Vec<Token>, i: usize) -> (r: usize)
    ensures
        r == block_end(model(v@), i as int, 0),
{
    if i >= v.len() {
        return v.len();
    }
    let mut j: usize = i;
    let mut extra: usize = 0;
    while j < v.len()
        invariant
            i <= j <= v.len(),
            extra <= j - i,
            block_end(model(v@), j as int, extra as nat) == block_end(model(v@), i as int, 0),
        decreases v.len() - j,
    {
        if v[j].kind == TokenType::RIGHT_CBRACE {
            if extra == 0 {
                return j + 1;
            }
            extra -= 1;
        } else if v[j].kind == TokenType::LEFT_CBRACE {
            extra += 1;
        }
        j += 1;
    }
    j
}

/// Moves `i` forward to the next `case`, `default` or closing brace, or to
/// the end.
pub fn find_case_arm_end(v: &Vec<Token>, i: usize) -> (r: usize)
    ensures
        r == case_arm_end(model(v@), i as int),
{
    let mut j: usize = i;
    if j > v.len() {
        return v.len();
    }
    while j < v.len() && !(v[j].kind == TokenType::KEYWORD_CASE || v[j].kind
        == TokenType::KEYWORD_DEFAULT || v[j].kind == TokenType::RIGHT_CBRACE)
        invariant
            i <= j <= v.len(),
            case_arm_end(model(v@), j as int) == case_arm_end(model(v@), i as int),
        decreases v.len() - j,
    {
        j += 1;
    }
    j
}

/// Moves `i` forward to the next semicolon or comma, or to the end.
pub fn find_term(v: &Vec<Token>, i: usize) -> (r: usize)
    ensures
        r == term_pos(model(v@), i as int),
{
    let mut j: usize = i;
    if j > v.len() {
        return v.len();
    }
    while j < v.len() && v[j].kind != TokenType::SEMICOLON && v[j].kind != TokenType::COMMA
        invariant
            i <= j <= v.len(),
            term_pos(model(v@), j as int) == term_pos(model(v@), i as int),
        decreases v.len() - j,
    {
        j += 1;
    }
    j
}

/// Scanning a sequence behind a prefix finds what scanning the sequence
/// alone finds, moved by the prefix's length.
pub proof fn lemma_find_kind_shift(p: Seq<TokenView>, t: Seq<TokenView>, i: int, k: TokenType)
    requires
        0 <= i,
    ensures
        find_kind(p + t, p.len() + i, k) == p.len() + find_kind(t, i, k),
    decreases t.len() - i,
{
    if i < t.len() {
        assert(kind_at(p + t, p.len() + i) == kind_at(t, i));
        if kind_at(t, i) != k {
            lemma_find_kind_shift(p, t, i + 1, k);
        }
    }
}

pub proof fn lemma_stmt_end_shift(p: Seq<TokenView>, t: Seq<TokenView>, i: int)
    requires
        0 <= i,
    ensures
        stmt_end(p + t, p.len() + i) == p.len() + stmt_end(t, i),
{
    lemma_find_kind_shift(p, t, i, TokenType::SEMICOLON);
}

pub proof fn lemma_block_end_shift(p: Seq<TokenView>, t: Seq<TokenView>, i: int, extra: nat)
    requires
        0 <= i,
    ensures
        block_end(p + t, p.len() + i, extra) == p.len() + block_end(t, i, extra),
    decreases t.len() - i,
{
    if i < t.len() {
        assert(kind_at(p + t, p.len() + i) == kind_at(t, i));
        if kind_at(t, i) == TokenType::RIGHT_CBRACE {
            if extra != 0 {
                lemma_block_end_shift(p, t, i + 1, (extra - 1) as nat);
            }
        } else if kind_at(t, i) == TokenType::LEFT_CBRACE {
            lemma_block_end_shift(p, t, i + 1, extra + 1);
        } else {
            lemma_block_end_shift(p, t, i + 1, extra);
        }
    }
}

/// A delimiter that the stream ended without: where the last token stood.
#[derive(Clone, Copy, Debug, PartialEq, Eq, Structural)]
pub struct MissingDelimiter {
    pub line: usize,
    pub column: usize,
}

/// The diagnostic for a stream that ended early: the position of its last
/// token, or line and column 0 for an empty stream.
pub open spec fn missing_at(v: Seq<Token>) -> MissingDelimiter {
    if v.len() == 0 {
        MissingDelimiter { line: 0, column: 0 }
    } else {
        MissingDelimiter { line: v.last().line, column: v.last().column }
    }
}

/// Whether the brace block scanned from `i`, with `extra` unclosed inner
/// blocks, is closed before the stream ends.
pub open spec fn block_closed(s: Seq<TokenView>, i: int, extra: nat) -> bool
    decreases s.len() - i,
{
    if i < 0 || i >= s.len() {
        false
    } else if kind_at(s, i) == TokenType::RIGHT_CBRACE {
        if extra == 0 {
            true
        } else {
            block_closed(s, i + 1, (extra - 1) as nat)
        }
    } else if kind_at(s, i) == TokenType::LEFT_CBRACE {
        block_closed(s, i + 1, extra + 1)
    } else {
        block_closed(s, i + 1, extra)
    }
}

fn missing(v: &Vec<Token>) -> (r: MissingDelimiter)
    ensures
        r == missing_at(v@),
{
    if v.len() == 0 {
        MissingDelimiter { line: 0, column: 0 }
    } else {
        let last = v.len() - 1;
        MissingDelimiter { line: v[last].line, column: v[last].column }
    }
}

/// Like `skip_stmt`, but a stream without a semicolon from `i` on is an
/// error that carries the position of the last token.
pub fn expect_stmt_end(v: &Vec<Token>, i: usize) -> (r: Result<usize, MissingDelimiter>)
    ensures
        r is Ok <==> find_kind(model(v@), i as int, TokenType::SEMICOLON) < v.len(),
        r matches Ok(j) ==> j == stmt_end(model(v@), i as int),
        r matches Err(d) ==> d == missing_at(v@),
{
    let j = find(v, i, TokenType::SEMICOLON);
    if j < v.len() {
        Ok(j + 1)
    } else {
        Err(missing(v))
    }
}

/// Like `skip_block`, but a block that the stream never closes is an error
/// that carries the position of the last token.
pub fn expect_block_end(v: &Vec<Token>, i: usize) -> (r: Result<usize, MissingDelimiter>)
    ensures
        r is Ok <==> block_closed(model(v@), i as int, 0),
        r matches Ok(j) ==> j == block_end(model(v@), i as int, 0),
        r matches Err(d) ==> d == missing_at(v@),
{
    if i >= v.len() {
        return Err(missing(v));
    }
    let mut j: usize = i;
    let mut extra: usize = 0;
    while j < v.len()
        invariant
            i <= j <= v.len(),
            extra <= j - i,
            block_end(model(v@), j as int, extra as nat) == block_end(model(v@), i as int, 0),
            block_closed(model(v@), j as int, extra as nat) == block_closed(
                model(v@),
                i as int,
                0,
            ),
        decreases v.len() - j,
    {
        if v[j].kind == TokenType::RIGHT_CBRACE {
            if extra == 0 {
                return Ok(j + 1);
            }
            extra -= 1;
        } else if v[j].kind == TokenType::LEFT_CBRACE {
            extra += 1;
        }
        j += 1;
    }
    Err(missing(v))
}

} // verus!
