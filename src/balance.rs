//! Brace balance: every construct the translator closes emits as many `{` as
//! `}` fragments, where the braces of the input only open and close the
//! bodies of constructs, so that no token written `{` or `}` is copied.
use vstd::prelude::*;
use crate::lexeme::{
    BaseType, TokenType, TokenView, base_at, kind_at, lemma_span, span_of, text_at, texts,
    type_code_of,
};
use crate::model::{
    Translator, args_from, array_init, array_type, array_out, assign_out, body_start, case_arm, case_out,
    case_walk, decl_out, decl_walk, dowhile_out, expr_out, expr_walk, for_header, for_out,
    function_out, if_out, lemma_case_arm, lemma_decl_walk, lemma_for_header, lemma_next_pos,
    loop_head, next_pos, opt_frag, prog_from, ret_clause, semicolon_view, step_out, step_text,
    term_pos_end, translate, while_out, else_body_start,
};
use crate::scan::{block_end, find_kind, lemma_find_kind, lemma_stmt_end, lemma_term_pos, stmt_end};
use crate::types::{VOID_CODE, declared_type, rust_type};

verus! {

/// How many fragments of `out` are exactly `f`.
pub open spec fn count_frag(out: Seq<Seq<char>>, f: Seq<char>) -> nat
    decreases out.len(),
{
    if out.len() == 0 {
        0
    } else {
        count_frag(out.drop_last(), f) + if out.last() == f {
            1nat
        } else {
            0nat
        }
    }
}

/// As many `{` fragments as `}` fragments.
pub open spec fn balanced(out: Seq<Seq<char>>) -> bool {
    count_frag(out, "{"@) == count_frag(out, "}"@)
}

/// No `{` and no `}` fragment at all.
pub open spec fn brace_free(out: Seq<Seq<char>>) -> bool {
    count_frag(out, "{"@) == 0 && count_frag(out, "}"@) == 0
}

pub open spec fn is_brace(t: Seq<char>) -> bool {
    t == "{"@ || t == "}"@
}

/// No token of `s` is written `{` or `}`.
pub open spec fn plain(s: Seq<TokenView>) -> bool {
    forall|k: int| 0 <= k < s.len() ==> !is_brace(#[trigger] s[k].text)
}

pub broadcast proof fn lemma_count_push(s: Seq<Seq<char>>, x: Seq<char>, f: Seq<char>)
    ensures
        #[trigger] count_frag(s.push(x), f) == count_frag(s, f) + if x == f {
            1nat
        } else {
            0nat
        },
{
    assert(s.push(x).drop_last() =~= s);
}

pub broadcast proof fn lemma_count_concat(a: Seq<Seq<char>>, b: Seq<Seq<char>>, f: Seq<char>)
    ensures
        #[trigger] count_frag(a + b, f) == count_frag(a, f) + count_frag(b, f),
    decreases b.len(),
{
    if b.len() == 0 {
        assert(a + b =~= a);
    } else {
        lemma_count_concat(a, b.drop_last(), f);
        assert((a + b).drop_last() =~= a + b.drop_last());
    }
}

pub broadcast proof fn lemma_lit2(a: Seq<char>, b: Seq<char>)
    ensures
        #[trigger] seq![a, b] == seq![a].push(b),
{
    assert(seq![a, b] =~= seq![a].push(b));
}

pub broadcast proof fn lemma_lit3(a: Seq<char>, b: Seq<char>, c: Seq<char>)
    ensures
        #[trigger] seq![a, b, c] == seq![a].push(b).push(c),
{
    assert(seq![a, b, c] =~= seq![a].push(b).push(c));
}

pub broadcast proof fn lemma_lit4(a: Seq<char>, b: Seq<char>, c: Seq<char>, d: Seq<char>)
    ensures
        #[trigger] seq![a, b, c, d] == seq![a].push(b).push(c).push(d),
{
    assert(seq![a, b, c, d] =~= seq![a].push(b).push(c).push(d));
}

pub broadcast proof fn lemma_lit5(a: Seq<char>, b: Seq<char>, c: Seq<char>, d: Seq<char>, e: Seq<char>)
    ensures
        #[trigger] seq![a, b, c, d, e] == seq![a].push(b).push(c).push(d).push(e),
{
    assert(seq![a, b, c, d, e] =~= seq![a].push(b).push(c).push(d).push(e));
}

pub broadcast proof fn lemma_lit8(
    a: Seq<char>,
    b: Seq<char>,
    c: Seq<char>,
    d: Seq<char>,
    e: Seq<char>,
    f: Seq<char>,
    g: Seq<char>,
    h: Seq<char>,
)
    ensures
        #[trigger] seq![a, b, c, d, e, f, g, h] == seq![a].push(b).push(c).push(d).push(e).push(
            f,
        ).push(g).push(h),
{
    assert(seq![a, b, c, d, e, f, g, h] =~= seq![a].push(b).push(c).push(d).push(e).push(
        f,
    ).push(g).push(h));
}

pub broadcast group group_counting {
    lemma_count_push,
    lemma_count_concat,
    lemma_lit2,
    lemma_lit3,
    lemma_lit4,
    lemma_lit5,
    lemma_lit8,
}

pub proof fn lemma_count_empty(f: Seq<char>)
    ensures
        count_frag(Seq::empty(), f) == 0,
{
}

/// None of the fixed fragments the translator writes, but `{` and `}`, is a
/// brace.
pub proof fn lemma_fixed_fragments()
    ensures
        !is_brace(","@),
        !is_brace(":"@),
        !is_brace("->"@),
        !is_brace("i32"@),
        !is_brace("i16"@),
        !is_brace("i64"@),
        !is_brace("f32"@),
        !is_brace("f64"@),
        !is_brace("char"@),
        !is_brace("bool"@),
        !is_brace("void"@),
        !is_brace("UNKNOWN_TYPE"@),
        !is_brace("fn"@),
        !is_brace("("@),
        !is_brace(")"@),
        !is_brace("let mut argv = env::args();"@),
        !is_brace("let mut argc = argv.len();"@),
        !is_brace("let mut"@),
        !is_brace("static"@),
        !is_brace("="@),
        !is_brace(";"@),
        !is_brace("["@),
        !is_brace("]"@),
        !is_brace("+=1"@),
        !is_brace("-=1"@),
        !is_brace(" ;"@),
        !is_brace("if"@),
        !is_brace("while"@),
        !is_brace("loop"@),
        !is_brace("else"@),
        !is_brace("match"@),
        !is_brace("_"@),
        !is_brace("=>"@),
        !is_brace(" "@),
        !is_brace("undefined_var"@),
        !is_brace("NONE"@),
        !is_brace("];"@),
        !is_brace(Seq::<char>::empty()),
        "{"@ != "}"@,
{
    reveal_strlit("{");
    reveal_strlit("}");
    reveal_strlit(",");
    reveal_strlit(":");
    reveal_strlit("->");
    reveal_strlit("i32");
    reveal_strlit("i16");
    reveal_strlit("i64");
    reveal_strlit("f32");
    reveal_strlit("f64");
    reveal_strlit("char");
    reveal_strlit("bool");
    reveal_strlit("void");
    reveal_strlit("UNKNOWN_TYPE");
    reveal_strlit("fn");
    reveal_strlit("(");
    reveal_strlit(")");
    reveal_strlit("let mut argv = env::args();");
    reveal_strlit("let mut argc = argv.len();");
    reveal_strlit("let mut");
    reveal_strlit("static");
    reveal_strlit("=");
    reveal_strlit(";");
    reveal_strlit("[");
    reveal_strlit("]");
    reveal_strlit("+=1");
    reveal_strlit("-=1");
    reveal_strlit(" ;");
    reveal_strlit("if");
    reveal_strlit("while");
    reveal_strlit("loop");
    reveal_strlit("else");
    reveal_strlit("match");
    reveal_strlit("_");
    reveal_strlit("=>");
    reveal_strlit(" ");
    reveal_strlit("undefined_var");
    reveal_strlit("NONE");
    reveal_strlit("];");
    assert(","@[0] != "{"@[0] && ","@[0] != "}"@[0]);
    assert(":"@[0] != "{"@[0] && ":"@[0] != "}"@[0]);
    assert("("@[0] != "{"@[0] && "("@[0] != "}"@[0]);
    assert(")"@[0] != "{"@[0] && ")"@[0] != "}"@[0]);
    assert("="@[0] != "{"@[0] && "="@[0] != "}"@[0]);
    assert(";"@[0] != "{"@[0] && ";"@[0] != "}"@[0]);
    assert("["@[0] != "{"@[0] && "["@[0] != "}"@[0]);
    assert("]"@[0] != "{"@[0] && "]"@[0] != "}"@[0]);
    assert("_"@[0] != "{"@[0] && "_"@[0] != "}"@[0]);
    assert(" "@[0] != "{"@[0] && " "@[0] != "}"@[0]);
    assert("{"@[0] != "}"@[0]);
    assert(Seq::<char>::empty().len() == 0);
}

/// A text followed by a newline is never a brace.
pub proof fn lemma_line_not_brace(t: Seq<char>)
    ensures
        !is_brace(t + "\n"@),
{
    reveal_strlit("{");
    reveal_strlit("}");
    reveal_strlit("\n");
    let x = t + "\n"@;
    assert(x[x.len() - 1] == '\n');
}

/// The type fragment of an array declaration is never a brace.
pub proof fn lemma_array_type_not_brace(s: Seq<TokenView>)
    ensures
        !is_brace(array_type(s)),
{
    reveal_strlit("{");
    reveal_strlit("}");
    reveal_strlit(":[");
    assert(array_type(s).len() >= 2);
}

pub proof fn lemma_text_plain(s: Seq<TokenView>, i: int)
    requires
        plain(s),
    ensures
        !is_brace(text_at(s, i)),
{
    lemma_fixed_fragments();
    if 0 <= i < s.len() {
        assert(!is_brace(s[i].text));
    }
}

pub proof fn lemma_texts_free(s: Seq<TokenView>)
    requires
        plain(s),
    ensures
        brace_free(texts(s)),
    decreases s.len(),
{
    broadcast use group_counting;

    if s.len() > 0 {
        let d = s.drop_last();
        assert(plain(d)) by {
            assert forall|k: int| 0 <= k < d.len() implies !is_brace(#[trigger] d[k].text) by {
                assert(d[k] == s[k]);
            }
        }
        lemma_texts_free(d);
        assert(texts(s) =~= texts(d).push(s.last().text));
        assert(!is_brace(s[s.len() - 1].text));
    }
}

pub proof fn lemma_type_free(code: int)
    ensures
        !is_brace(declared_type(code)),
        brace_free(opt_frag(rust_type(code))),
        brace_free(ret_clause(code)),
{
    broadcast use group_counting;

    lemma_fixed_fragments();
    lemma_count_empty("{"@);
    lemma_count_empty("}"@);
    if code == VOID_CODE {
        assert(ret_clause(code) == Seq::<Seq<char>>::empty());
    } else {
        match rust_type(code) {
            Some(t) => {
                assert(!is_brace(t));
                assert(ret_clause(code) == seq!["->"@, t]);
                assert(count_frag(seq!["->"@], "{"@) == 0);
                assert(count_frag(seq!["->"@, t], "{"@) == 0);
            },
            None => {},
        }
    }
}

pub proof fn lemma_args_free(s: Seq<TokenView>, i: int)
    requires
        plain(s),
    ensures
        brace_free(args_from(s, i)),
    decreases s.len() + 1 - i,
{
    broadcast use group_counting;

    lemma_fixed_fragments();
    if 0 <= i < s.len() {
        lemma_text_plain(s, i + 1);
        lemma_type_free(type_code_of(kind_at(s, i)));
        lemma_args_free(s, i + 1);
        lemma_args_free(s, i + 2);
    }
}

pub proof fn lemma_step_text_free(t: TokenType)
    ensures
        !is_brace(step_text(t)),
{
    lemma_fixed_fragments();
}

pub proof fn lemma_expr_walk_free(s: Seq<TokenView>, i: int, after_ident: bool, prev: Seq<char>)
    requires
        plain(s),
        !is_brace(prev),
    ensures
        brace_free(expr_walk(s, i, after_ident, prev).0),
        brace_free(expr_walk(s, i, after_ident, prev).1),
    decreases s.len() + 1 - i,
{
    broadcast use group_counting;

    lemma_fixed_fragments();
    lemma_text_plain(s, i);
    lemma_text_plain(s, i + 1);
    lemma_step_text_free(kind_at(s, i));
    if 0 <= i < s.len() {
        lemma_expr_walk_free(
            s,
            i + 1,
            kind_at(s, i) == TokenType::IDENTIFIER,
            text_at(s, i),
        );
        lemma_expr_walk_free(
            s,
            i + 2,
            kind_at(s, i + 1) == TokenType::IDENTIFIER,
            text_at(s, i + 1),
        );
    }
}

pub proof fn lemma_expr_free(s: Seq<TokenView>)
    requires
        plain(s),
    ensures
        brace_free(expr_out(s)),
{
    broadcast use group_counting;

    lemma_fixed_fragments();
    lemma_expr_walk_free(s, 0, false, " "@);
}

/// No token of `s` up to position `bound` is written `{` or `}`.
pub open spec fn plain_upto(s: Seq<TokenView>, bound: int) -> bool {
    forall|k: int| 0 <= k < s.len() && k <= bound ==> !is_brace(#[trigger] s[k].text)
}

pub proof fn lemma_decl_walk_free(
    tr: Translator,
    s: Seq<TokenView>,
    i: int,
    name: Seq<char>,
    assigned: bool,
    val: Seq<char>,
    bound: int,
)
    requires
        plain_upto(s, bound),
        decl_walk(tr, s, i, name, assigned, val).1 matches Some(j) ==> j <= bound,
        decl_walk(tr, s, i, name, assigned, val).1 is None ==> bound >= s.len(),
        !is_brace(name),
        !is_brace(val),
    ensures
        brace_free(decl_walk(tr, s, i, name, assigned, val).0),
    decreases s.len() + 1 - i,
{
    broadcast use group_counting;

    lemma_fixed_fragments();
    lemma_type_free(type_code_of(kind_at(s, 0)));
    lemma_count_empty("{"@);
    lemma_count_empty("}"@);
    if 0 <= i < s.len() {
        let k = kind_at(s, i);
        if k == TokenType::IDENTIFIER {
            lemma_decl_walk(tr, s, i, name, assigned, val);
            assert(!is_brace(s[i].text));
            lemma_decl_walk_free(tr, s, i + 1, text_at(s, i), assigned, val, bound);
        } else if k == TokenType::OP_ASSIGN {
            lemma_decl_walk(tr, s, i + 2, name, true, text_at(s, i + 1));
            if i + 1 < s.len() {
                assert(!is_brace(s[i + 1].text));
            }
            lemma_decl_walk_free(tr, s, i + 2, name, true, text_at(s, i + 1), bound);
        } else if k == TokenType::COMMA {
            lemma_decl_walk_free(tr, s, i + 1, "undefined_var"@, false, "NONE"@, bound);
        } else if k == TokenType::SEMICOLON || (k == TokenType::LEFT_SBRACKET && i >= 2) {
        } else {
            lemma_decl_walk_free(tr, s, i + 1, name, assigned, val, bound);
        }
    }
}

pub proof fn lemma_array_init_free(s: Seq<TokenView>, i: int)
    requires
        tidy_init(s, i),
    ensures
        brace_free(array_init(s, i)),
    decreases s.len() + 1 - i,
{
    broadcast use group_counting;

    lemma_fixed_fragments();
    if 0 <= i < s.len() && kind_at(s, i) != TokenType::SEMICOLON && kind_at(s, i)
        != TokenType::RIGHT_CBRACE {
        lemma_array_init_free(s, i + 1);
    }
}

/// Every token that the aggregate initialiser from `i` copies is written
/// neither `{` nor `}`.
pub open spec fn tidy_init(s: Seq<TokenView>, i: int) -> bool
    decreases s.len() + 1 - i,
{
    if i < 0 || i >= s.len() || kind_at(s, i) == TokenType::SEMICOLON || kind_at(s, i)
        == TokenType::RIGHT_CBRACE {
        true
    } else {
        (kind_at(s, i) == TokenType::LEFT_CBRACE || !is_brace(text_at(s, i))) && tidy_init(
            s,
            i + 1,
        )
    }
}

/// The constructs from `h` on copy no token written `{` or `}`: in such
/// input, braces only open and close the bodies of constructs.
pub open spec fn tidy_prog(tr: Translator, s: Seq<TokenView>, h: int) -> bool
    decreases s.len(),
        if s.len() == 0 {
            0nat
        } else {
            3nat
        },
        s.len() - h,
{
    if h < 0 || h >= s.len() {
        true
    } else {
        proof {
            lemma_next_pos(s, h);
        }
        tidy_step(tr, s, h) && tidy_prog(tr, s, next_pos(s, h))
    }
}

/// The construct at `h` copies no token written `{` or `}`.
pub open spec fn tidy_step(tr: Translator, s: Seq<TokenView>, h: int) -> bool
    decreases s.len(), 2nat, 0int,
{
    if h < 0 || h >= s.len() {
        true
    } else {
        let open = find_kind(s, h + 2, TokenType::LEFT_CBRACE);
        proof {
            lemma_next_pos(s, h);
            lemma_find_kind(s, h + 2, TokenType::LEFT_CBRACE);
            lemma_span(s, h, next_pos(s, h));
            lemma_span(s, else_body_start(s, h), next_pos(s, h));
            lemma_span(s, h + 2, open - 1);
            lemma_span(s, open + 1, next_pos(s, h));
        }
        let k = kind_at(s, h);
        let b = base_at(s, h);
        let e = next_pos(s, h);
        let here = span_of(s, h, e);
        if b == BaseType::BASE_DATATYPE {
            let k2 = kind_at(s, h + 2);
            if k2 == TokenType::LEFT_BRACKET {
                tidy_function(Translator { in_block: true, ..tr }, here)
            } else if k2 == TokenType::LEFT_SBRACKET {
                tidy_array(tr, here)
            } else if k2 == TokenType::SEMICOLON || k2 == TokenType::COMMA || k2
                == TokenType::OP_ASSIGN {
                tidy_decl(tr, here)
            } else {
                !is_brace(text_at(s, h))
            }
        } else if k == TokenType::KEYWORD_IF {
            tidy_if(tr, here)
        } else if k == TokenType::KEYWORD_ELSE {
            tidy_prog(tr, span_of(s, else_body_start(s, h), e), 0)
        } else if k == TokenType::KEYWORD_SWITCH {
            let subject = span_of(s, h + 2, open - 1);
            (if subject.len() == 1 {
                !is_brace(text_at(s, h + 2))
            } else {
                tidy_prog(tr, subject, 0)
            }) && tidy_case(tr, span_of(s, open + 1, e))
        } else if k == TokenType::KEYWORD_WHILE {
            tidy_while(tr, here)
        } else if k == TokenType::KEYWORD_DO {
            tidy_dowhile(tr, here)
        } else if k == TokenType::KEYWORD_FOR {
            tidy_for(tr, here)
        } else if b == BaseType::BASE_COMMENT {
            true
        } else if k == TokenType::IDENTIFIER {
            if kind_at(s, h + 1) == TokenType::OP_ASSIGN {
                tidy_assign(tr, here)
            } else if base_at(s, h + 1) == BaseType::BASE_BINOP || (base_at(s, h + 1)
                != BaseType::BASE_UNOP && kind_at(s, h + 1) == TokenType::LEFT_BRACKET) {
                plain(here)
            } else {
                !is_brace(text_at(s, h))
            }
        } else if b == BaseType::BASE_UNOP {
            !is_brace(text_at(s, h + 1))
        } else if k == TokenType::RIGHT_CBRACE || k == TokenType::COMMA {
            true
        } else {
            !is_brace(text_at(s, h))
        }
    }
}

pub open spec fn tidy_function(tr: Translator, s: Seq<TokenView>) -> bool
    decreases s.len(), 1nat, 0int,
{
    let is_main = kind_at(s, 1) == TokenType::MAIN;
    let close = find_kind(s, 3, TokenType::RIGHT_BRACKET);
    let open = find_kind(
        s,
        if is_main {
            3
        } else {
            close
        },
        TokenType::LEFT_CBRACE,
    );
    proof {
        lemma_span(s, open + 1, s.len() - 1);
    }
    !is_brace(text_at(s, 1)) && plain(span_of(s, 3, close)) && tidy_prog(
        tr,
        span_of(s, open + 1, s.len() - 1),
        0,
    )
}

pub open spec fn tidy_array(tr: Translator, s: Seq<TokenView>) -> bool
    decreases s.len(), 0nat, 0int,
{
    proof {
        lemma_stmt_end(s, 6);
        lemma_span(s, 6, stmt_end(s, 6));
    }
    !is_brace(text_at(s, 1)) && tidy_init(s, 5) && (kind_at(s, 5) == TokenType::COMMA
        ==> tidy_prog(tr, seq![s[0]] + span_of(s, 6, stmt_end(s, 6)), 0))
}

pub open spec fn tidy_decl(tr: Translator, s: Seq<TokenView>) -> bool
    decreases s.len(), 1nat, 0int,
{
    match decl_walk(tr, s, 1, "undefined_var"@, false, "NONE"@).1 {
        Some(j) => {
            proof {
                lemma_decl_walk(tr, s, 1, "undefined_var"@, false, "NONE"@);
                lemma_stmt_end(s, j - 1);
                lemma_span(s, j - 1, stmt_end(s, j - 1));
            }
            plain_upto(s, j) && tidy_array(tr, seq![s[0]] + span_of(s, j - 1, stmt_end(s, j - 1)))
        },
        None => plain(s),
    }
}

pub open spec fn tidy_if(tr: Translator, s: Seq<TokenView>) -> bool
    decreases s.len(), 1nat, 0int,
{
    let close = find_kind(s, 2, TokenType::RIGHT_BRACKET);
    proof {
        lemma_find_kind(s, 2, TokenType::RIGHT_BRACKET);
        lemma_span(s, body_start(s, close), s.len() as int);
    }
    plain(span_of(s, 2, close)) && tidy_prog(
        tr,
        span_of(s, body_start(s, close), s.len() as int),
        0,
    )
}

pub open spec fn tidy_while(tr: Translator, s: Seq<TokenView>) -> bool
    decreases s.len(), 1nat, 0int,
{
    let close = find_kind(s, 2, TokenType::RIGHT_BRACKET);
    proof {
        lemma_find_kind(s, 2, TokenType::RIGHT_BRACKET);
        lemma_span(s, body_start(s, close), s.len() as int);
    }
    plain(span_of(s, 2, close)) && tidy_prog(
        tr,
        span_of(s, body_start(s, close), s.len() as int),
        0,
    )
}

pub open spec fn tidy_dowhile(tr: Translator, s: Seq<TokenView>) -> bool
    decreases s.len(), 1nat, 0int,
{
    let close = block_end(s, 2, 0) - 1;
    let cond_end = find_kind(s, close + 3, TokenType::RIGHT_BRACKET);
    proof {
        lemma_span(s, 2, close);
    }
    tidy_prog(tr, span_of(s, 2, close), 0) && plain(span_of(s, close + 3, cond_end))
}

pub open spec fn tidy_case_walk(tr: Translator, s: Seq<TokenView>, i: int) -> bool
    decreases s.len(), 0nat, s.len() - i,
{
    if i < 0 || i >= s.len() || kind_at(s, i) == TokenType::RIGHT_CBRACE {
        true
    } else {
        let arm = case_arm(s, i);
        proof {
            lemma_case_arm(s, i);
            lemma_span(s, arm.lo, arm.hi);
        }
        (arm.is_default || !is_brace(text_at(s, i + 1))) && tidy_prog(
            tr,
            span_of(s, arm.lo, arm.hi),
            0,
        ) && tidy_case_walk(tr, s, arm.next)
    }
}

pub open spec fn tidy_case(tr: Translator, s: Seq<TokenView>) -> bool
    decreases s.len(), 1nat, 0int,
{
    tidy_case_walk(tr, s, 0)
}

pub open spec fn tidy_for(tr: Translator, s: Seq<TokenView>) -> bool
    decreases s.len(), 1nat, 0int,
{
    let hd = for_header(s);
    proof {
        lemma_for_header(s);
        lemma_span(s, hd.init_lo, hd.init_hi);
        lemma_span(s, hd.upd_lo, hd.upd_hi);
        lemma_span(s, hd.body_lo, hd.body_hi);
    }
    let init = span_of(s, hd.init_lo, hd.init_hi);
    &&& hd.has_init ==> (if base_at(s, hd.init_lo) == BaseType::BASE_DATATYPE {
        tidy_decl(tr, init)
    } else {
        tidy_assign(tr, init)
    })
    &&& hd.has_cond ==> plain(span_of(s, hd.cond_lo, hd.cond_hi))
    &&& hd.upd_lo < hd.upd_hi ==> tidy_prog(
        tr,
        span_of(s, hd.upd_lo, hd.upd_hi) + seq![semicolon_view()],
        0,
    )
    &&& tidy_prog(tr, span_of(s, hd.body_lo, hd.body_hi), 0)
}

pub open spec fn tidy_assign(tr: Translator, s: Seq<TokenView>) -> bool
    decreases s.len(), 1nat, 0int,
{
    if base_at(s, 2) == BaseType::BASE_UNOP || base_at(s, 3) == BaseType::BASE_UNOP || base_at(
        s,
        3,
    ) == BaseType::BASE_BINOP {
        !is_brace(text_at(s, 0)) && !is_brace(text_at(s, 1)) && plain(
            span_of(s, 2, stmt_end(s, 2)),
        )
    } else {
        proof {
            lemma_term_pos(s, 2);
            lemma_span(s, 2, term_pos_end(s));
        }
        !is_brace(text_at(s, 0)) && !is_brace(text_at(s, 1)) && !is_brace(text_at(s, 2)) && (
        (kind_at(s, 3) != TokenType::SEMICOLON && kind_at(s, 3) != TokenType::COMMA) ==> tidy_prog(
            tr,
            span_of(s, 2, term_pos_end(s)),
            0,
        ))
    }
}

pub proof fn lemma_prog_balanced(tr: Translator, s: Seq<TokenView>, h: int)
    requires
        tidy_prog(tr, s, h),
    ensures
        balanced(prog_from(tr, s, h)),
    decreases s.len(),
        if s.len() == 0 {
            0nat
        } else {
            3nat
        },
        s.len() - h,
{
    broadcast use group_counting;

    lemma_count_empty("{"@);
    lemma_count_empty("}"@);
    if 0 <= h < s.len() {
        lemma_next_pos(s, h);
        lemma_step_balanced(tr, s, h);
        lemma_prog_balanced(tr, s, next_pos(s, h));
    }
}

pub proof fn lemma_step_balanced(tr: Translator, s: Seq<TokenView>, h: int)
    requires
        tidy_step(tr, s, h),
    ensures
        balanced(step_out(tr, s, h)),
    decreases s.len(), 2nat, 0int,
{
    broadcast use group_counting;

    lemma_fixed_fragments();
    lemma_count_empty("{"@);
    lemma_count_empty("}"@);
    if 0 <= h < s.len() {
        lemma_next_pos(s, h);
        lemma_find_kind(s, h + 2, TokenType::LEFT_CBRACE);
        let e = next_pos(s, h);
        let open = find_kind(s, h + 2, TokenType::LEFT_CBRACE);
        let b0 = else_body_start(s, h);
        lemma_span(s, h, e);
        lemma_span(s, b0, e);
        lemma_span(s, h + 2, open - 1);
        lemma_span(s, open + 1, e);
        let here = span_of(s, h, e);
        lemma_line_not_brace(text_at(s, h));
        lemma_step_text_free(kind_at(s, h));
        lemma_step_text_free(kind_at(s, h + 1));
        let k = kind_at(s, h);
        let b = base_at(s, h);
        if b == BaseType::BASE_DATATYPE {
            let k2 = kind_at(s, h + 2);
            if k2 == TokenType::LEFT_BRACKET {
                lemma_function_balanced(Translator { in_block: true, ..tr }, here);
            } else if k2 == TokenType::LEFT_SBRACKET {
                lemma_array_balanced(tr, here);
            } else if k2 == TokenType::SEMICOLON || k2 == TokenType::COMMA || k2
                == TokenType::OP_ASSIGN {
                lemma_decl_balanced(tr, here);
            }
        } else if k == TokenType::KEYWORD_IF {
            lemma_if_balanced(tr, here);
        } else if k == TokenType::KEYWORD_ELSE {
            lemma_prog_balanced(tr, span_of(s, b0, e), 0);
        } else if k == TokenType::KEYWORD_SWITCH {
            if span_of(s, h + 2, open - 1).len() != 1 {
                lemma_prog_balanced(tr, span_of(s, h + 2, open - 1), 0);
            }
            lemma_case_balanced(tr, span_of(s, open + 1, e));
        } else if k == TokenType::KEYWORD_WHILE {
            lemma_while_balanced(tr, here);
        } else if k == TokenType::KEYWORD_DO {
            lemma_dowhile_balanced(tr, here);
        } else if k == TokenType::KEYWORD_FOR {
            lemma_for_balanced(tr, here);
        } else if b == BaseType::BASE_COMMENT {
        } else if k == TokenType::IDENTIFIER {
            if kind_at(s, h + 1) == TokenType::OP_ASSIGN {
                lemma_assign_balanced(tr, here);
            } else if base_at(s, h + 1) == BaseType::BASE_BINOP || (base_at(s, h + 1)
                != BaseType::BASE_UNOP && kind_at(s, h + 1) == TokenType::LEFT_BRACKET) {
                lemma_expr_free(here);
                lemma_texts_free(here);
            }
        }
    }
}

pub proof fn lemma_function_balanced(tr: Translator, s: Seq<TokenView>)
    requires
        tidy_function(tr, s),
    ensures
        balanced(function_out(tr, s)),
    decreases s.len(), 1nat, 0int,
{
    broadcast use group_counting;

    lemma_fixed_fragments();
    lemma_count_empty("{"@);
    lemma_count_empty("}"@);
    let close = find_kind(s, 3, TokenType::RIGHT_BRACKET);
    let is_main = kind_at(s, 1) == TokenType::MAIN;
    let open = find_kind(
        s,
        if is_main {
            3
        } else {
            close
        },
        TokenType::LEFT_CBRACE,
    );
    lemma_args_free(span_of(s, 3, close), 0);
    lemma_type_free(type_code_of(kind_at(s, 0)));
    lemma_span(s, open + 1, s.len() - 1);
    lemma_prog_balanced(tr, span_of(s, open + 1, s.len() - 1), 0);
}

pub proof fn lemma_array_balanced(tr: Translator, s: Seq<TokenView>)
    requires
        tidy_array(tr, s),
    ensures
        balanced(array_out(tr, s)),
    decreases s.len(), 0nat, 0int,
{
    broadcast use group_counting;

    lemma_fixed_fragments();
    lemma_array_init_free(s, 5);
    lemma_array_type_not_brace(s);
    if kind_at(s, 5) == TokenType::COMMA {
        lemma_stmt_end(s, 6);
        let e = stmt_end(s, 6);
        lemma_span(s, 6, e);
        lemma_prog_balanced(tr, seq![s[0]] + span_of(s, 6, e), 0);
    }
}

pub proof fn lemma_decl_balanced(tr: Translator, s: Seq<TokenView>)
    requires
        tidy_decl(tr, s),
    ensures
        balanced(decl_out(tr, s)),
    decreases s.len(), 1nat, 0int,
{
    broadcast use group_counting;

    lemma_fixed_fragments();
    let w = decl_walk(tr, s, 1, "undefined_var"@, false, "NONE"@);
    lemma_decl_walk(tr, s, 1, "undefined_var"@, false, "NONE"@);
    if let Some(j) = w.1 {
        lemma_decl_walk_free(tr, s, 1, "undefined_var"@, false, "NONE"@, j);
        lemma_stmt_end(s, j - 1);
        let e = stmt_end(s, j - 1);
        lemma_span(s, j - 1, e);
        lemma_array_balanced(tr, seq![s[0]] + span_of(s, j - 1, e));
    } else {
        lemma_decl_walk_free(tr, s, 1, "undefined_var"@, false, "NONE"@, s.len() as int);
    }
}

pub proof fn lemma_loop_head_free(cond: Seq<TokenView>)
    requires
        plain(cond),
    ensures
        brace_free(loop_head(cond)),
{
    broadcast use group_counting;

    lemma_fixed_fragments();
    lemma_texts_free(cond);
}

pub proof fn lemma_if_balanced(tr: Translator, s: Seq<TokenView>)
    requires
        tidy_if(tr, s),
    ensures
        balanced(if_out(tr, s)),
    decreases s.len(), 1nat, 0int,
{
    broadcast use group_counting;

    lemma_fixed_fragments();
    let close = find_kind(s, 2, TokenType::RIGHT_BRACKET);
    lemma_find_kind(s, 2, TokenType::RIGHT_BRACKET);
    let b = body_start(s, close);
    lemma_span(s, b, s.len() as int);
    lemma_texts_free(span_of(s, 2, close));
    lemma_prog_balanced(tr, span_of(s, b, s.len() as int), 0);
}

pub proof fn lemma_while_balanced(tr: Translator, s: Seq<TokenView>)
    requires
        tidy_while(tr, s),
    ensures
        balanced(while_out(tr, s)),
    decreases s.len(), 1nat, 0int,
{
    broadcast use group_counting;

    lemma_fixed_fragments();
    let close = find_kind(s, 2, TokenType::RIGHT_BRACKET);
    lemma_find_kind(s, 2, TokenType::RIGHT_BRACKET);
    let b = body_start(s, close);
    lemma_span(s, b, s.len() as int);
    lemma_loop_head_free(span_of(s, 2, close));
    lemma_prog_balanced(tr, span_of(s, b, s.len() as int), 0);
}

pub proof fn lemma_dowhile_balanced(tr: Translator, s: Seq<TokenView>)
    requires
        tidy_dowhile(tr, s),
    ensures
        balanced(dowhile_out(tr, s)),
    decreases s.len(), 1nat, 0int,
{
    broadcast use group_counting;

    lemma_fixed_fragments();
    let close = block_end(s, 2, 0) - 1;
    let cond_end = find_kind(s, close + 3, TokenType::RIGHT_BRACKET);
    lemma_span(s, 2, close);
    lemma_texts_free(span_of(s, close + 3, cond_end));
    lemma_prog_balanced(tr, span_of(s, 2, close), 0);
}

pub proof fn lemma_case_walk_balanced(tr: Translator, s: Seq<TokenView>, i: int)
    requires
        tidy_case_walk(tr, s, i),
    ensures
        balanced(case_walk(tr, s, i).0),
    decreases s.len(), 0nat, s.len() - i,
{
    broadcast use group_counting;

    lemma_fixed_fragments();
    lemma_count_empty("{"@);
    lemma_count_empty("}"@);
    if 0 <= i < s.len() && kind_at(s, i) != TokenType::RIGHT_CBRACE {
        let arm = case_arm(s, i);
        lemma_case_arm(s, i);
        lemma_span(s, arm.lo, arm.hi);
        lemma_prog_balanced(tr, span_of(s, arm.lo, arm.hi), 0);
        lemma_case_walk_balanced(tr, s, arm.next);
    }
}

pub proof fn lemma_case_balanced(tr: Translator, s: Seq<TokenView>)
    requires
        tidy_case(tr, s),
    ensures
        balanced(case_out(tr, s)),
    decreases s.len(), 1nat, 0int,
{
    broadcast use group_counting;

    lemma_fixed_fragments();
    lemma_case_walk_balanced(tr, s, 0);
}

pub proof fn lemma_for_balanced(tr: Translator, s: Seq<TokenView>)
    requires
        tidy_for(tr, s),
    ensures
        balanced(for_out(tr, s)),
    decreases s.len(), 1nat, 0int,
{
    broadcast use group_counting;

    lemma_fixed_fragments();
    lemma_count_empty("{"@);
    lemma_count_empty("}"@);
    let hd = for_header(s);
    lemma_for_header(s);
    lemma_span(s, hd.init_lo, hd.init_hi);
    lemma_span(s, hd.upd_lo, hd.upd_hi);
    lemma_span(s, hd.body_lo, hd.body_hi);
    if hd.has_init {
        if base_at(s, hd.init_lo) == BaseType::BASE_DATATYPE {
            lemma_decl_balanced(tr, span_of(s, hd.init_lo, hd.init_hi));
        } else {
            lemma_assign_balanced(tr, span_of(s, hd.init_lo, hd.init_hi));
        }
    }
    if hd.has_cond {
        lemma_loop_head_free(span_of(s, hd.cond_lo, hd.cond_hi));
    }
    lemma_loop_head_free(Seq::empty());
    if hd.upd_lo < hd.upd_hi {
        lemma_prog_balanced(tr, span_of(s, hd.upd_lo, hd.upd_hi) + seq![semicolon_view()], 0);
    }
    lemma_prog_balanced(tr, span_of(s, hd.body_lo, hd.body_hi), 0);
}

pub proof fn lemma_assign_balanced(tr: Translator, s: Seq<TokenView>)
    requires
        tidy_assign(tr, s),
    ensures
        balanced(assign_out(tr, s)),
    decreases s.len(), 1nat, 0int,
{
    broadcast use group_counting;

    lemma_fixed_fragments();
    lemma_count_empty("{"@);
    lemma_count_empty("}"@);
    if base_at(s, 2) == BaseType::BASE_UNOP || base_at(s, 3) == BaseType::BASE_UNOP || base_at(
        s,
        3,
    ) == BaseType::BASE_BINOP {
        lemma_expr_free(span_of(s, 2, stmt_end(s, 2)));
    } else if kind_at(s, 3) != TokenType::SEMICOLON && kind_at(s, 3) != TokenType::COMMA {
        let t = term_pos_end(s);
        lemma_term_pos(s, 2);
        lemma_span(s, 2, t);
        lemma_prog_balanced(tr, span_of(s, 2, t), 0);
    }
}

/// Brace balance: where the input's braces only open and close the bodies of
/// constructs (no token written `{` or `}` is copied into the output), the
/// whole translation, and the output of each construct that the translator
/// closes (function, `if`, `while`, `do`/`while`, `for`, and the arms of a
/// `switch`), hold as many `{` fragments as `}` fragments.
pub proof fn law_braces_balanced(tr: Translator, s: Seq<TokenView>)
    ensures
        tidy_prog(tr, s, 0) ==> count_frag(translate(tr, s), "{"@) == count_frag(
            translate(tr, s),
            "}"@,
        ),
        tidy_function(tr, s) ==> count_frag(function_out(tr, s), "{"@) == count_frag(
            function_out(tr, s),
            "}"@,
        ),
        tidy_if(tr, s) ==> count_frag(if_out(tr, s), "{"@) == count_frag(if_out(tr, s), "}"@),
        tidy_while(tr, s) ==> count_frag(while_out(tr, s), "{"@) == count_frag(
            while_out(tr, s),
            "}"@,
        ),
        tidy_dowhile(tr, s) ==> count_frag(dowhile_out(tr, s), "{"@) == count_frag(
            dowhile_out(tr, s),
            "}"@,
        ),
        tidy_for(tr, s) ==> count_frag(for_out(tr, s), "{"@) == count_frag(for_out(tr, s), "}"@),
        tidy_case(tr, s) ==> count_frag(case_out(tr, s), "{"@) == count_frag(
            case_out(tr, s),
            "}"@,
        ),
{
    if tidy_prog(tr, s, 0) {
        lemma_prog_balanced(tr, s, 0);
    }
    if tidy_function(tr, s) {
        lemma_function_balanced(tr, s);
    }
    if tidy_if(tr, s) {
        lemma_if_balanced(tr, s);
    }
    if tidy_while(tr, s) {
        lemma_while_balanced(tr, s);
    }
    if tidy_dowhile(tr, s) {
        lemma_dowhile_balanced(tr, s);
    }
    if tidy_for(tr, s) {
        lemma_for_balanced(tr, s);
    }
    if tidy_case(tr, s) {
        lemma_case_balanced(tr, s);
    }
}

} // verus!
