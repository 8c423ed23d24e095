//! Laws of the translation, proved over the model that the translators meet.
use vstd::prelude::*;
use crate::balance::{count_frag, group_counting, lemma_count_empty};
use crate::lexeme::{
    BaseType, TokenType, TokenView, base_at, kind_at, span_of, text_at, type_code_of,
};
use crate::model::{
    Translator, body_start, decl_line, decl_out, decl_walk, for_header, for_out, guarded_end,
    lemma_next_pos, loop_head, next_pos, prog_from, step_out, storage, translate, while_out,
};
use crate::scan::{
    block_end, find_kind, lemma_block_end, lemma_block_end_shift, lemma_find_kind_at,
    lemma_stmt_end, lemma_stmt_end_shift, stmt_end,
};
use crate::shift::{
    lemma_at_shift, lemma_block_shift, lemma_block_take, lemma_prog_shift, lemma_stmt_shift,
    lemma_stmt_take,
};
use crate::types::declared_type;

verus! {

/// The translation is a function of the tokens and of the context at entry:
/// the same tokens in the same context give the same fragments.
pub proof fn law_deterministic(tr: Translator, s: Seq<TokenView>, t: Seq<TokenView>)
    requires
        s == t,
    ensures
        translate(tr, s) == translate(tr, t),
{
}

/// A comment token translates to its text followed by a newline.
pub proof fn law_comment(tr: Translator, c: TokenView)
    requires
        c.base == BaseType::BASE_COMMENT,
        c.kind == TokenType::COMMENT_SINGLE || c.kind == TokenType::COMMENT_MULTI,
    ensures
        translate(tr, seq![c]) == seq![c.text + "\n"@],
{
    let s = seq![c];
    assert(next_pos(s, 0) == 1);
    assert(prog_from(tr, s, 1) == Seq::<Seq<char>>::empty());
    assert(kind_at(s, 0) == c.kind && text_at(s, 0) == c.text);
    assert(step_out(tr, s, 0) == seq![c.text + "\n"@]);
    assert(translate(tr, s) =~= seq![c.text + "\n"@]);
}

/// Neither storage specifier is the text of a token of `s`.
pub open spec fn no_storage_text(s: Seq<TokenView>) -> bool {
    forall|k: int|
        0 <= k < s.len() ==> #[trigger] s[k].text != "static"@ && s[k].text != "let mut"@
}

/// The storage specifier of the other scope.
pub open spec fn other_storage(tr: Translator) -> Seq<char> {
    if tr.in_block {
        "static"@
    } else {
        "let mut"@
    }
}

proof fn lemma_storage_words()
    ensures
        "static"@ != "let mut"@,
        ":"@ != "static"@ && ":"@ != "let mut"@,
        "="@ != "static"@ && "="@ != "let mut"@,
        ";"@ != "static"@ && ";"@ != "let mut"@,
        "NONE"@ != "static"@ && "NONE"@ != "let mut"@,
        "undefined_var"@ != "static"@ && "undefined_var"@ != "let mut"@,
        Seq::<char>::empty() != "static"@ && Seq::<char>::empty() != "let mut"@,
        forall|c: int|
            declared_type(c) != "static"@ && #[trigger] declared_type(c) != "let mut"@,
{
    reveal_strlit("static");
    reveal_strlit("let mut");
    reveal_strlit(":");
    reveal_strlit("=");
    reveal_strlit(";");
    reveal_strlit("NONE");
    reveal_strlit("undefined_var");
    reveal_strlit("i32");
    reveal_strlit("i16");
    reveal_strlit("i64");
    reveal_strlit("f32");
    reveal_strlit("f64");
    reveal_strlit("char");
    reveal_strlit("bool");
    reveal_strlit("void");
    reveal_strlit("UNKNOWN_TYPE");
    assert("static"@.len() == 6);
    assert("let mut"@.len() == 7);
    assert(":"@.len() == 1);
}

proof fn lemma_decl_lines(
    tr: Translator,
    s: Seq<TokenView>,
    i: int,
    name: Seq<char>,
    assigned: bool,
    val: Seq<char>,
)
    requires
        1 <= i < s.len(),
        kind_at(s, s.len() - 1) == TokenType::SEMICOLON,
        kind_at(s, s.len() - 2) != TokenType::OP_ASSIGN,
        forall|k: int| 0 <= k < s.len() ==> kind_at(s, k) != TokenType::LEFT_SBRACKET,
        no_storage_text(s),
        name != "static"@ && name != "let mut"@,
        val != "static"@ && val != "let mut"@,
    ensures
        decl_walk(tr, s, i, name, assigned, val).1 is None,
        decl_walk(tr, s, i, name, assigned, val).0.len() > 0,
        decl_walk(tr, s, i, name, assigned, val).0[0] == storage(tr),
        count_frag(decl_walk(tr, s, i, name, assigned, val).0, storage(tr)) >= 1,
        count_frag(decl_walk(tr, s, i, name, assigned, val).0, other_storage(tr)) == 0,
    decreases s.len() - i,
{
    broadcast use group_counting;

    lemma_storage_words();
    lemma_count_empty(storage(tr));
    lemma_count_empty(other_storage(tr));
    let k = kind_at(s, i);
    let ty = declared_type(type_code_of(kind_at(s, 0)));
    let line = decl_line(tr, ty, name, assigned, val);
    assert(line[0] == storage(tr));
    assert(count_frag(line, storage(tr)) >= 1);
    assert(count_frag(line, other_storage(tr)) == 0);
    if k == TokenType::IDENTIFIER {
        assert(s[i].text != "static"@ && s[i].text != "let mut"@);
        lemma_decl_lines(tr, s, i + 1, text_at(s, i), assigned, val);
    } else if k == TokenType::OP_ASSIGN {
        assert(s[i + 1].text != "static"@ && s[i + 1].text != "let mut"@);
        lemma_decl_lines(tr, s, i + 2, name, true, text_at(s, i + 1));
    } else if k == TokenType::SEMICOLON {
    } else if k == TokenType::COMMA {
        lemma_decl_lines(tr, s, i + 1, "undefined_var"@, false, "NONE"@);
    } else {
        lemma_decl_lines(tr, s, i + 1, name, assigned, val);
    }
}

/// A scalar declaration statement is emitted with `static` as its leading
/// storage specifier at file scope, and with `let mut` inside a block; every
/// declared name gets that specifier, and the other one never appears.
pub proof fn law_declaration_storage(tr: Translator, s: Seq<TokenView>)
    requires
        s.len() >= 3,
        s[0].base == BaseType::BASE_DATATYPE,
        s[1].kind == TokenType::IDENTIFIER,
        s[2].kind == TokenType::SEMICOLON || s[2].kind == TokenType::COMMA || s[2].kind
            == TokenType::OP_ASSIGN,
        s[s.len() - 1].kind == TokenType::SEMICOLON,
        s[s.len() - 2].kind != TokenType::OP_ASSIGN,
        forall|k: int|
            0 <= k < s.len() - 1 ==> s[k].kind != TokenType::SEMICOLON && s[k].kind
                != TokenType::LEFT_SBRACKET,
        no_storage_text(s),
    ensures
        translate(tr, s).len() > 0,
        translate(tr, s)[0] == (if tr.in_block {
            "let mut"@
        } else {
            "static"@
        }),
        count_frag(translate(tr, s), storage(tr)) >= 1,
        count_frag(translate(tr, s), other_storage(tr)) == 0,
{
    let n = s.len() as int;
    lemma_find_kind_at(s, 2, n - 1, TokenType::SEMICOLON);
    assert(next_pos(s, 0) == n);
    assert(span_of(s, 0, n) =~= s);
    lemma_storage_words();
    lemma_decl_lines(tr, s, 1, "undefined_var"@, false, "NONE"@);
    assert(step_out(tr, s, 0) == decl_out(tr, s));
    assert(prog_from(tr, s, n) == Seq::<Seq<char>>::empty());
    assert(translate(tr, s) =~= decl_out(tr, s));
}

/// A `while` whose condition is empty is emitted as `loop` with its body,
/// and no condition.
pub proof fn law_while_empty_condition(tr: Translator, s: Seq<TokenView>)
    requires
        s.len() >= 3,
        s[2].kind == TokenType::RIGHT_BRACKET,
    ensures
        while_out(tr, s) == seq!["loop"@, "{"@] + prog_from(
            tr,
            span_of(s, body_start(s, 2), s.len() as int),
            0,
        ) + seq!["}"@],
{
    assert(find_kind(s, 2, TokenType::RIGHT_BRACKET) == 2);
    assert(span_of(s, 2, 2).len() == 0);
    assert(loop_head(span_of(s, 2, 2)) == seq!["loop"@]);
    assert(while_out(tr, s) =~= seq!["loop"@, "{"@] + prog_from(
        tr,
        span_of(s, body_start(s, 2), s.len() as int),
        0,
    ) + seq!["}"@]);
}

/// The body of `for ( ; ; ) body`: a braced block or a single statement.
pub open spec fn empty_for_body(s: Seq<TokenView>) -> Seq<TokenView> {
    if kind_at(s, 5) == TokenType::LEFT_CBRACE {
        span_of(s, 6, block_end(s, 6, 0))
    } else {
        span_of(s, 5, stmt_end(s, 5))
    }
}

/// A `for ( ; ; )` is emitted as `loop` with its body: no initialisation, no
/// condition and no update.
pub proof fn law_for_empty_header(tr: Translator, s: Seq<TokenView>)
    requires
        s.len() >= 5,
        s[0].kind != TokenType::LEFT_BRACKET,
        s[1].kind == TokenType::LEFT_BRACKET,
        s[2].kind == TokenType::SEMICOLON,
        s[3].kind == TokenType::SEMICOLON,
        s[4].kind == TokenType::RIGHT_BRACKET,
    ensures
        for_out(tr, s) == seq!["loop"@, "{"@] + prog_from(tr, empty_for_body(s), 0) + seq![
            "}"@,
        ],
{
    lemma_find_kind_at(s, 0, 1, TokenType::LEFT_BRACKET);
    assert(find_kind(s, 2, TokenType::SEMICOLON) == 2);
    assert(stmt_end(s, 2) == 3);
    assert(find_kind(s, 3, TokenType::SEMICOLON) == 3);
    assert(stmt_end(s, 3) == 4);
    let hd = for_header(s);
    assert(!hd.has_init && !hd.has_cond);
    assert(hd.upd_lo == 4);
    assert(find_kind(s, 4, TokenType::RIGHT_BRACKET) == 4);
    assert(loop_head(Seq::empty()) == seq!["loop"@]);
    assert(span_of(s, hd.body_lo, hd.body_hi) == empty_for_body(s));
    assert(for_out(tr, s) =~= seq!["loop"@, "{"@] + prog_from(tr, empty_for_body(s), 0) + seq![
        "}"@,
    ]);
}

/// A body that is one braced block or one statement, with nothing after it.
pub open spec fn closed_body(body: Seq<TokenView>) -> bool {
    if kind_at(body, 0) == TokenType::LEFT_CBRACE {
        block_end(body, 1, 0) == body.len()
    } else {
        stmt_end(body, 0) == body.len()
    }
}

/// `while ( cond ) body` and `for ( ; cond ; ) body` are emitted alike.
pub proof fn law_while_for_alike(
    tr: Translator,
    cond: Seq<TokenView>,
    body: Seq<TokenView>,
    w: TokenView,
    w_open: TokenView,
    w_close: TokenView,
    f: TokenView,
    f_open: TokenView,
    f_semi1: TokenView,
    f_semi2: TokenView,
    f_close: TokenView,
)
    requires
        w_close.kind == TokenType::RIGHT_BRACKET,
        f.kind != TokenType::LEFT_BRACKET,
        f_open.kind == TokenType::LEFT_BRACKET,
        f_semi1.kind == TokenType::SEMICOLON,
        f_semi2.kind == TokenType::SEMICOLON,
        f_close.kind == TokenType::RIGHT_BRACKET,
        forall|k: int|
            0 <= k < cond.len() ==> cond[k].kind != TokenType::SEMICOLON && cond[k].kind
                != TokenType::RIGHT_BRACKET,
        closed_body(body),
    ensures
        while_out(tr, seq![w, w_open] + cond + seq![w_close] + body) == for_out(
            tr,
            seq![f, f_open, f_semi1] + cond + seq![f_semi2, f_close] + body,
        ),
{
    let c = cond.len() as int;
    let wp = seq![w, w_open] + cond + seq![w_close];
    let ws = wp + body;
    let fp = seq![f, f_open, f_semi1] + cond + seq![f_semi2, f_close];
    let fs = fp + body;
    assert(ws =~= seq![w, w_open] + cond + seq![w_close] + body);
    assert(fs =~= seq![f, f_open, f_semi1] + cond + seq![f_semi2, f_close] + body);
    // the while side
    assert forall|k: int| 2 <= k < 2 + c implies kind_at(ws, k) != TokenType::RIGHT_BRACKET by {
        assert(ws[k] == cond[k - 2]);
    }
    assert(kind_at(ws, 2 + c) == TokenType::RIGHT_BRACKET);
    lemma_find_kind_at(ws, 2, 2 + c, TokenType::RIGHT_BRACKET);
    assert(span_of(ws, 2, 2 + c) =~= cond);
    // the for side
    lemma_find_kind_at(fs, 0, 1, TokenType::LEFT_BRACKET);
    assert(kind_at(fs, 2) == TokenType::SEMICOLON);
    assert(find_kind(fs, 2, TokenType::SEMICOLON) == 2);
    assert forall|k: int| 3 <= k < 3 + c implies kind_at(fs, k) != TokenType::SEMICOLON by {
        assert(fs[k] == cond[k - 3]);
    }
    assert(kind_at(fs, 3 + c) == TokenType::SEMICOLON);
    lemma_find_kind_at(fs, 3, 3 + c, TokenType::SEMICOLON);
    let hd = for_header(fs);
    assert(hd.upd_lo == 4 + c);
    assert(kind_at(fs, 4 + c) == TokenType::RIGHT_BRACKET);
    assert(find_kind(fs, 4 + c, TokenType::RIGHT_BRACKET) == 4 + c);
    assert(hd.has_cond ==> span_of(fs, 3, 3 + c) =~= cond);
    assert(!hd.has_cond ==> c == 0);
    // both bodies
    assert(kind_at(ws, 3 + c) == kind_at(body, 0));
    assert(kind_at(fs, 5 + c) == kind_at(body, 0));
    lemma_block_end_shift(fp, body, 1, 0);
    lemma_stmt_end_shift(fp, body, 0);
    if kind_at(body, 0) == TokenType::LEFT_CBRACE {
        assert(span_of(ws, 4 + c, ws.len() as int) =~= span_of(fs, 6 + c, fs.len() as int));
    } else {
        assert(span_of(ws, 3 + c, ws.len() as int) =~= span_of(fs, 5 + c, fs.len() as int));
    }
    let a = if hd.has_cond {
        span_of(fs, hd.cond_lo, hd.cond_hi)
    } else {
        seq![]
    };
    assert(a =~= span_of(ws, 2, 2 + c));
    assert(while_out(tr, ws) =~= for_out(tr, fs));
}

/// Where the body that opens `rest` ends: past its braced block, or past its
/// first statement.
pub open spec fn body_end(rest: Seq<TokenView>) -> int {
    if kind_at(rest, 0) == TokenType::LEFT_CBRACE {
        block_end(rest, 1, 0)
    } else {
        stmt_end(rest, 0)
    }
}

proof fn lemma_no_close(cond: Seq<TokenView>, pre: Seq<TokenView>, post: Seq<TokenView>)
    requires
        forall|k: int| 0 <= k < pre.len() ==> pre[k].kind != TokenType::RIGHT_BRACKET,
        forall|k: int| 0 <= k < cond.len() ==> cond[k].kind != TokenType::RIGHT_BRACKET,
        post.len() > 0,
        post[0].kind == TokenType::RIGHT_BRACKET,
    ensures
        find_kind(pre + cond + post, 0, TokenType::RIGHT_BRACKET) == pre.len() + cond.len(),
{
    let s = pre + cond + post;
    assert forall|k: int| 0 <= k < pre.len() + cond.len() implies kind_at(s, k)
        != TokenType::RIGHT_BRACKET by {
        if k < pre.len() {
            assert(s[k] == pre[k]);
        } else {
            assert(s[k] == cond[k - pre.len()]);
        }
    }
    assert(s[(pre.len() + cond.len()) as int] == post[0]);
    lemma_find_kind_at(s, 0, (pre.len() + cond.len()) as int, TokenType::RIGHT_BRACKET);
}

/// A construct whose header `head` ends with the first `)` of the sequence,
/// and whose body opens `rest`, reaches exactly over the body.
#[verifier::rlimit(100)]
proof fn lemma_header_reach(tr: Translator, head: Seq<TokenView>, rest: Seq<TokenView>)
    requires
        head.len() >= 1,
        find_kind(head + rest, 0, TokenType::RIGHT_BRACKET) == head.len() - 1,
        head[0].base != BaseType::BASE_DATATYPE,
        head[0].kind == TokenType::KEYWORD_WHILE || head[0].kind == TokenType::KEYWORD_FOR,
    ensures
        0 <= body_end(rest) <= rest.len(),
        next_pos(head + rest, 0) == head.len() + body_end(rest),
        translate(tr, head + rest) == step_out(tr, head + rest, 0) + prog_from(
            tr,
            rest,
            body_end(rest),
        ),
        step_out(tr, head + rest, 0) == (if head[0].kind == TokenType::KEYWORD_WHILE {
            while_out(tr, head + rest.take(body_end(rest)))
        } else {
            for_out(tr, head + rest.take(body_end(rest)))
        }),
{
    let s = head + rest;
    let x = body_end(rest);
    lemma_block_end(rest, 1, 0);
    lemma_stmt_end(rest, 0);
    lemma_at_shift(head, rest, head.len() as int);
    lemma_block_shift(head, rest, head.len() + 1int, 0);
    lemma_stmt_shift(head, rest, head.len() as int);
    assert(guarded_end(s, 0) == head.len() + x);
    assert(kind_at(s, 0) == head[0].kind && base_at(s, 0) == head[0].base);
    assert(next_pos(s, 0) == head.len() + x);
    assert(span_of(s, 0, head.len() + x) =~= head + rest.take(x));
    lemma_prog_shift(tr, head, rest, x);
    lemma_next_pos(s, 0);
}

/// In a program, `while ( cond ) ...` and `for ( ; cond ; ) ...` translate
/// alike, whatever tokens follow the header.
pub proof fn law_while_for_alike_in_program(
    tr: Translator,
    cond: Seq<TokenView>,
    rest: Seq<TokenView>,
    w: TokenView,
    w_open: TokenView,
    w_close: TokenView,
    f: TokenView,
    f_open: TokenView,
    f_semi1: TokenView,
    f_semi2: TokenView,
    f_close: TokenView,
)
    requires
        w.base != BaseType::BASE_DATATYPE,
        w.kind == TokenType::KEYWORD_WHILE,
        w_open.kind == TokenType::LEFT_BRACKET,
        w_close.kind == TokenType::RIGHT_BRACKET,
        f.base != BaseType::BASE_DATATYPE,
        f.kind == TokenType::KEYWORD_FOR,
        f_open.kind == TokenType::LEFT_BRACKET,
        f_semi1.kind == TokenType::SEMICOLON,
        f_semi2.kind == TokenType::SEMICOLON,
        f_close.kind == TokenType::RIGHT_BRACKET,
        forall|k: int|
            0 <= k < cond.len() ==> cond[k].kind != TokenType::SEMICOLON && cond[k].kind
                != TokenType::RIGHT_BRACKET,
    ensures
        translate(tr, seq![w, w_open] + cond + seq![w_close] + rest) == translate(
            tr,
            seq![f, f_open, f_semi1] + cond + seq![f_semi2, f_close] + rest,
        ),
{
    let wp = seq![w, w_open] + cond + seq![w_close];
    let fp = seq![f, f_open, f_semi1] + cond + seq![f_semi2, f_close];
    let fcond = cond.push(f_semi2);
    assert(wp + rest =~= seq![w, w_open] + cond + (seq![w_close] + rest));
    assert(fp + rest =~= seq![f, f_open, f_semi1] + fcond + (seq![f_close] + rest));
    lemma_no_close(cond, seq![w, w_open], seq![w_close] + rest);
    lemma_no_close(fcond, seq![f, f_open, f_semi1], seq![f_close] + rest);
    assert(wp[0] == w && fp[0] == f);
    lemma_header_reach(tr, wp, rest);
    lemma_header_reach(tr, fp, rest);
    let x = body_end(rest);
    let body = rest.take(x);
    if kind_at(rest, 0) == TokenType::LEFT_CBRACE {
        lemma_block_take(rest, 1, 0, x);
    } else {
        lemma_stmt_take(rest, 0);
    }
    lemma_block_end(rest, 1, 0);
    lemma_stmt_end(rest, 0);
    if rest.len() > 0 {
        assert(x >= 1);
        assert(kind_at(body, 0) == kind_at(rest, 0));
    }
    assert(closed_body(body));
    law_while_for_alike(tr, cond, body, w, w_open, w_close, f, f_open, f_semi1, f_semi2, f_close);
    assert(wp + body =~= seq![w, w_open] + cond + seq![w_close] + body);
    assert(fp + body =~= seq![f, f_open, f_semi1] + cond + seq![f_semi2, f_close] + body);
    assert(wp + rest =~= seq![w, w_open] + cond + seq![w_close] + rest);
    assert(fp + rest =~= seq![f, f_open, f_semi1] + cond + seq![f_semi2, f_close] + rest);
}

} // verus!
