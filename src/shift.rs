//! Translation looks only forward: what the dispatcher does from a position
//! does not depend on the tokens before it.
use vstd::prelude::*;
use crate::lexeme::{TokenType, TokenView, base_at, kind_at, span_of, text_at};
use crate::model::{
    Translator, else_body_start, guarded_end, lemma_next_pos, next_pos, prog_from, step_out,
};
use crate::scan::{
    block_end, find_kind, lemma_block_end, lemma_block_end_shift, lemma_find_kind,
    lemma_find_kind_shift, lemma_stmt_end, lemma_stmt_end_shift, stmt_end,
};

verus! {

pub broadcast proof fn lemma_at_shift(p: Seq<TokenView>, t: Seq<TokenView>, k: int)
    requires
        k >= p.len(),
    ensures
        #[trigger] kind_at(p + t, k) == kind_at(t, k - p.len()),
        base_at(p + t, k) == base_at(t, k - p.len()),
        text_at(p + t, k) == text_at(t, k - p.len()),
{
}

pub broadcast proof fn lemma_span_shift(p: Seq<TokenView>, t: Seq<TokenView>, a: int, b: int)
    requires
        a >= p.len(),
    ensures
        #[trigger] span_of(p + t, a, b) == span_of(t, a - p.len(), b - p.len()),
{
    if 0 <= a - p.len() <= b - p.len() <= t.len() {
        assert(span_of(p + t, a, b) =~= span_of(t, a - p.len(), b - p.len()));
    }
}

pub broadcast proof fn lemma_find_shift(p: Seq<TokenView>, t: Seq<TokenView>, k: int, kd: TokenType)
    requires
        k >= p.len(),
    ensures
        #[trigger] find_kind(p + t, k, kd) == p.len() + find_kind(t, k - p.len(), kd),
{
    lemma_find_kind_shift(p, t, k - p.len(), kd);
}

pub broadcast proof fn lemma_stmt_shift(p: Seq<TokenView>, t: Seq<TokenView>, k: int)
    requires
        k >= p.len(),
    ensures
        #[trigger] stmt_end(p + t, k) == p.len() + stmt_end(t, k - p.len()),
{
    lemma_stmt_end_shift(p, t, k - p.len());
}

pub broadcast proof fn lemma_block_shift(p: Seq<TokenView>, t: Seq<TokenView>, k: int, extra: nat)
    requires
        k >= p.len(),
    ensures
        #[trigger] block_end(p + t, k, extra) == p.len() + block_end(t, k - p.len(), extra),
{
    lemma_block_end_shift(p, t, k - p.len(), extra);
}

pub broadcast group group_shift {
    lemma_at_shift,
    lemma_span_shift,
    lemma_find_shift,
    lemma_stmt_shift,
    lemma_block_shift,
}

/// The end of a construct with a parenthesised header is the same behind
/// any prefix.
pub proof fn lemma_guarded_shift(p: Seq<TokenView>, t: Seq<TokenView>, j: int)
    requires
        0 <= j,
    ensures
        guarded_end(p + t, p.len() + j) == p.len() + guarded_end(t, j),
{
    let s = p + t;
    lemma_find_kind(t, j, TokenType::RIGHT_BRACKET);
    let r = find_kind(t, j, TokenType::RIGHT_BRACKET);
    lemma_find_shift(p, t, p.len() + j, TokenType::RIGHT_BRACKET);
    lemma_at_shift(p, t, p.len() + r + 1);
    lemma_block_shift(p, t, p.len() + r + 2, 0);
    lemma_stmt_shift(p, t, p.len() + r + 1);
}

/// A construct ends at the same place behind any prefix.
#[verifier::rlimit(100)]
pub proof fn lemma_next_pos_shift(p: Seq<TokenView>, t: Seq<TokenView>, i: int)
    requires
        0 <= i < t.len(),
    ensures
        next_pos(p + t, p.len() + i) == p.len() + next_pos(t, i),
        find_kind(p + t, p.len() + i + 2, TokenType::LEFT_CBRACE) == p.len()
            + find_kind(t, i + 2, TokenType::LEFT_CBRACE),
        find_kind(t, i + 2, TokenType::LEFT_CBRACE) >= 0,
{
    let s = p + t;
    let h = p.len() + i;
    lemma_at_shift(p, t, h);
    lemma_at_shift(p, t, h + 1);
    lemma_at_shift(p, t, h + 2);
    lemma_at_shift(p, t, h + 3);
    lemma_guarded_shift(p, t, i);
    lemma_guarded_shift(p, t, i + 1);
    lemma_find_kind(t, i, TokenType::RIGHT_BRACKET);
    lemma_find_kind(t, i + 2, TokenType::LEFT_CBRACE);
    lemma_block_end(t, i + 2, 0);
    let r = find_kind(t, i, TokenType::RIGHT_BRACKET);
    let o = find_kind(t, i + 2, TokenType::LEFT_CBRACE);
    let bs = block_end(t, i + 2, 0);
    lemma_find_shift(p, t, h, TokenType::RIGHT_BRACKET);
    lemma_find_shift(p, t, h + 2, TokenType::LEFT_CBRACE);
    lemma_block_shift(p, t, h + 2, 0);
    lemma_block_shift(p, t, p.len() + o + 1, 0);
    lemma_stmt_shift(p, t, p.len() + bs);
    lemma_stmt_shift(p, t, h);
    lemma_stmt_shift(p, t, h + 1);
    lemma_stmt_shift(p, t, h + 2);
    assert(next_pos(s, h) == p.len() + next_pos(t, i));
}

/// The construct at a position reads as the same construct behind any
/// prefix.
#[verifier::rlimit(50)]
pub proof fn lemma_step_shift(tr: Translator, p: Seq<TokenView>, t: Seq<TokenView>, i: int)
    requires
        0 <= i < t.len(),
    ensures
        next_pos(p + t, p.len() + i) == p.len() + next_pos(t, i),
        step_out(tr, p + t, p.len() + i) == step_out(tr, t, i),
{
    broadcast use group_shift;

    let s = p + t;
    let h = p.len() + i;
    lemma_next_pos_shift(p, t, i);
    lemma_next_pos(t, i);
    assert(kind_at(s, h) == kind_at(t, i));
    assert(kind_at(s, h + 1) == kind_at(t, i + 1));
    assert(kind_at(s, h + 2) == kind_at(t, i + 2));
    assert(base_at(s, h) == base_at(t, i));
    assert(base_at(s, h + 1) == base_at(t, i + 1));
    assert(text_at(s, h) == text_at(t, i));
    assert(text_at(s, h + 1) == text_at(t, i + 1));
    assert(text_at(s, h + 2) == text_at(t, i + 2));
    let o = find_kind(t, i + 2, TokenType::LEFT_CBRACE);
    let e = next_pos(t, i);
    assert(span_of(s, h, p.len() + e) == span_of(t, i, e));
    assert(span_of(s, else_body_start(s, h), p.len() + e) == span_of(
        t,
        else_body_start(t, i),
        e,
    ));
    assert(span_of(s, h + 2, p.len() + o - 1) == span_of(t, i + 2, o - 1));
    assert(span_of(s, p.len() + o + 1, p.len() + e) == span_of(t, o + 1, e));
    assert(step_out(tr, s, h) == step_out(tr, t, i));
}

/// The constructs from a position translate alike behind any prefix.
pub proof fn lemma_prog_shift(tr: Translator, p: Seq<TokenView>, t: Seq<TokenView>, i: int)
    requires
        0 <= i <= t.len(),
    ensures
        prog_from(tr, p + t, p.len() + i) == prog_from(tr, t, i),
    decreases t.len() - i,
{
    if i < t.len() {
        lemma_step_shift(tr, p, t, i);
        lemma_next_pos(t, i);
        lemma_prog_shift(tr, p, t, next_pos(t, i));
    }
}

/// A block scan that ends at `x` ends there also when the tokens from `x` on
/// are cut off.
pub proof fn lemma_block_take(b: Seq<TokenView>, j: int, extra: nat, x: int)
    requires
        0 <= j,
        x == block_end(b, j, extra),
    ensures
        block_end(b.take(x), j, extra) == x,
    decreases b.len() - j,
{
    lemma_block_end(b, j, extra);
    if j < b.len() {
        let c = b.take(x);
        assert(kind_at(c, j) == kind_at(b, j));
        if kind_at(b, j) == TokenType::RIGHT_CBRACE {
            if extra != 0 {
                lemma_block_take(b, j + 1, (extra - 1) as nat, x);
            }
        } else if kind_at(b, j) == TokenType::LEFT_CBRACE {
            lemma_block_take(b, j + 1, extra + 1, x);
        } else {
            lemma_block_take(b, j + 1, extra, x);
        }
    } else {
        assert(b.take(x) =~= b);
    }
}

pub proof fn lemma_find_take(b: Seq<TokenView>, j: int, k: TokenType, y: int)
    requires
        0 <= j,
        find_kind(b, j, k) < y <= b.len(),
    ensures
        find_kind(b.take(y), j, k) == find_kind(b, j, k),
    decreases b.len() - j,
{
    lemma_find_kind(b, j, k);
    assert(kind_at(b.take(y), j) == kind_at(b, j));
    if kind_at(b, j) != k {
        lemma_find_take(b, j + 1, k, y);
    }
}

/// A statement scan that ends at `x` ends there also when the tokens from
/// `x` on are cut off.
pub proof fn lemma_stmt_take(b: Seq<TokenView>, j: int)
    requires
        0 <= j,
    ensures
        stmt_end(b.take(stmt_end(b, j)), j) == stmt_end(b, j),
{
    lemma_stmt_end(b, j);
    let f = find_kind(b, j, TokenType::SEMICOLON);
    lemma_find_kind(b, j, TokenType::SEMICOLON);
    if f < b.len() {
        lemma_find_take(b, j, TokenType::SEMICOLON, f + 1);
    } else {
        assert(b.take(stmt_end(b, j)) =~= b);
    }
}

} // verus!
