//! The translation as mathematics: what each translator emits for a span of
//! tokens, given the translation context.
use vstd::prelude::*;
use crate::lexeme::{lemma_span, BaseType, TokenType, TokenView, base_at, kind_at, span_of, text_at, texts, type_code_of};
use crate::scan::{block_end, case_arm_end, lemma_case_arm_end, find_kind, lemma_block_end, lemma_find_kind, lemma_stmt_end, lemma_term_pos, stmt_end, term_pos};
use crate::types::{VOID_CODE, declared_type, rust_type};

verus! {

/// The translation context: whether the translator stands inside a block
/// (a declaration there is a local), and inside a composite expression (an
/// identifier's postfix `++`/`--` is then not written as a statement).
#[derive(Clone, Copy, Debug, PartialEq, Eq, Structural)]
pub struct Translator {
    pub in_block: bool,
    pub in_expr: bool,
}

/// The storage specifier of a declaration in the given context.
pub open spec fn storage(tr: Translator) -> Seq<char> {
    if tr.in_block {
        "let mut"@
    } else {
        "static"@
    }
}

/// The statement that replaces an increment or decrement operator.
pub open spec fn step_text(t: TokenType) -> Seq<char> {
    if t == TokenType::OP_INC {
        "+=1"@
    } else if t == TokenType::OP_DEC {
        "-=1"@
    } else {
        " ;"@
    }
}

pub open spec fn opt_frag(o: Option<Seq<char>>) -> Seq<Seq<char>> {
    match o {
        Some(t) => seq![t],
        None => seq![],
    }
}

/// Formal parameters from position `i`: `name : Type` for each `Type name`
/// pair, with the commas kept.
pub open spec fn args_from(s: Seq<TokenView>, i: int) -> Seq<Seq<char>>
    decreases s.len() + 1 - i,
{
    if i < 0 || i >= s.len() {
        seq![]
    } else if kind_at(s, i) == TokenType::COMMA {
        seq![","@] + args_from(s, i + 1)
    } else {
        seq![text_at(s, i + 1), ":"@] + opt_frag(rust_type(type_code_of(kind_at(s, i))))
            + args_from(s, i + 2)
    }
}

/// The return-type clause of a signature: none for `void` or an unknown type.
pub open spec fn ret_clause(code: int) -> Seq<Seq<char>> {
    if code == VOID_CODE {
        seq![]
    } else {
        match rust_type(code) {
            Some(t) => seq!["->"@, t],
            None => seq![],
        }
    }
}

/// An expression from position `i`, up to the first semicolon. `after_ident`
/// tells whether the previous token was an identifier, whose text is `prev`.
/// The result is the inline part and the deferred postfix updates.
pub open spec fn expr_walk(s: Seq<TokenView>, i: int, after_ident: bool, prev: Seq<char>) -> (
    Seq<Seq<char>>,
    Seq<Seq<char>>,
)
    decreases s.len() + 1 - i,
{
    if i < 0 || i >= s.len() || kind_at(s, i) == TokenType::SEMICOLON {
        (seq![], seq![])
    } else if base_at(s, i) == BaseType::BASE_UNOP {
        if after_ident {
            let r = expr_walk(s, i + 1, kind_at(s, i) == TokenType::IDENTIFIER, text_at(s, i));
            (r.0, seq![prev, step_text(kind_at(s, i)), ";"@] + r.1)
        } else {
            let r = expr_walk(
                s,
                i + 2,
                kind_at(s, i + 1) == TokenType::IDENTIFIER,
                text_at(s, i + 1),
            );
            (seq!["("@, text_at(s, i + 1), step_text(kind_at(s, i)), ")"@] + r.0, r.1)
        }
    } else {
        let r = expr_walk(s, i + 1, kind_at(s, i) == TokenType::IDENTIFIER, text_at(s, i));
        (seq![text_at(s, i)] + r.0, r.1)
    }
}

/// An expression statement: the expression with prefix operators inline, a
/// semicolon, then one update statement for each postfix operator.
pub open spec fn expr_out(s: Seq<TokenView>) -> Seq<Seq<char>> {
    let r = expr_walk(s, 0, false, " "@);
    r.0 + seq![";"@] + r.1
}

/// The line emitted for one declared name.
pub open spec fn decl_line(
    tr: Translator,
    ty: Seq<char>,
    name: Seq<char>,
    assigned: bool,
    val: Seq<char>,
) -> Seq<Seq<char>> {
    seq![storage(tr), name, ":"@, ty] + (if assigned {
        seq!["="@, val]
    } else {
        seq![]
    }) + seq![";"@]
}

/// The walk over a scalar declaration from position `i`, with the name, the
/// initialised flag and the initialiser collected so far. The result is the
/// lines of the names completed by a comma or the semicolon, and the position
/// of an opening square bracket, where an array declaration takes over.
pub open spec fn decl_walk(
    tr: Translator,
    s: Seq<TokenView>,
    i: int,
    name: Seq<char>,
    assigned: bool,
    val: Seq<char>,
) -> (Seq<Seq<char>>, Option<int>)
    decreases s.len() + 1 - i,
{
    if i < 0 || i >= s.len() {
        (seq![], None)
    } else {
        let k = kind_at(s, i);
        let line = decl_line(tr, declared_type(type_code_of(kind_at(s, 0))), name, assigned, val);
        if k == TokenType::IDENTIFIER {
            decl_walk(tr, s, i + 1, text_at(s, i), assigned, val)
        } else if k == TokenType::OP_ASSIGN {
            decl_walk(tr, s, i + 2, name, true, text_at(s, i + 1))
        } else if k == TokenType::SEMICOLON {
            (line, None)
        } else if k == TokenType::COMMA {
            let r = decl_walk(tr, s, i + 1, "undefined_var"@, false, "NONE"@);
            (line + r.0, r.1)
        } else if k == TokenType::LEFT_SBRACKET && i >= 2 {
            (seq![], Some(i))
        } else {
            decl_walk(tr, s, i + 1, name, assigned, val)
        }
    }
}

/// An aggregate initialiser from position `i`, up to the semicolon or the
/// closing brace, with the opening brace written as a square bracket.
pub open spec fn array_init(s: Seq<TokenView>, i: int) -> Seq<Seq<char>>
    decreases s.len() - i,
{
    if i < 0 || i >= s.len() || kind_at(s, i) == TokenType::SEMICOLON || kind_at(s, i)
        == TokenType::RIGHT_CBRACE {
        seq![]
    } else {
        seq![
            if kind_at(s, i) == TokenType::LEFT_CBRACE {
                "["@
            } else {
                text_at(s, i)
            },
        ] + array_init(s, i + 1)
    }
}

/// Where the body of an `if`, `while` or `for` begins, past its parenthesised
/// header and an opening brace.
pub open spec fn body_start(s: Seq<TokenView>, close: int) -> int {
    if kind_at(s, close + 1) == TokenType::LEFT_CBRACE {
        close + 2
    } else {
        close + 1
    }
}

/// The end of a construct with a parenthesised header from `h`: past the
/// braced block or the single statement that follows the first `)`.
pub open spec fn guarded_end(s: Seq<TokenView>, h: int) -> int {
    let a = find_kind(s, h, TokenType::RIGHT_BRACKET) + 1;
    if kind_at(s, a) == TokenType::LEFT_CBRACE {
        block_end(s, a + 1, 0)
    } else {
        stmt_end(s, a)
    }
}

/// Where the body of the `else` at `h` begins: past an opening brace.
pub open spec fn else_body_start(s: Seq<TokenView>, h: int) -> int {
    if kind_at(s, h + 1) == TokenType::LEFT_CBRACE {
        h + 2
    } else {
        h + 1
    }
}

/// The position after the construct that begins at `h`.
pub open spec fn next_pos(s: Seq<TokenView>, h: int) -> int {
    let k = kind_at(s, h);
    let b = base_at(s, h);
    if b == BaseType::BASE_DATATYPE {
        let k2 = kind_at(s, h + 2);
        if k2 == TokenType::LEFT_BRACKET {
            block_end(s, find_kind(s, h + 2, TokenType::LEFT_CBRACE) + 1, 0)
        } else if k2 == TokenType::LEFT_SBRACKET || k2 == TokenType::SEMICOLON || k2
            == TokenType::COMMA || k2 == TokenType::OP_ASSIGN {
            stmt_end(s, h + 2)
        } else {
            h + 1
        }
    } else if k == TokenType::KEYWORD_IF {
        guarded_end(s, h)
    } else if k == TokenType::KEYWORD_ELSE {
        if kind_at(s, h + 1) == TokenType::KEYWORD_IF {
            guarded_end(s, h + 1)
        } else if kind_at(s, h + 1) == TokenType::LEFT_CBRACE {
            block_end(s, h + 2, 0)
        } else {
            stmt_end(s, h + 1)
        }
    } else if k == TokenType::KEYWORD_SWITCH {
        block_end(s, find_kind(s, h + 2, TokenType::LEFT_CBRACE) + 1, 0)
    } else if k == TokenType::KEYWORD_WHILE {
        guarded_end(s, h)
    } else if k == TokenType::KEYWORD_DO {
        stmt_end(s, block_end(s, h + 2, 0))
    } else if k == TokenType::KEYWORD_FOR {
        guarded_end(s, h)
    } else if b == BaseType::BASE_COMMENT {
        h + 1
    } else if k == TokenType::IDENTIFIER {
        if kind_at(s, h + 1) == TokenType::OP_ASSIGN {
            if kind_at(s, h + 3) == TokenType::COMMA {
                h + 4
            } else {
                stmt_end(s, h)
            }
        } else if base_at(s, h + 1) == BaseType::BASE_UNOP {
            h + 2
        } else if base_at(s, h + 1) == BaseType::BASE_BINOP {
            stmt_end(s, h)
        } else if kind_at(s, h + 1) == TokenType::LEFT_BRACKET {
            let r = find_kind(s, h, TokenType::RIGHT_BRACKET);
            if r < s.len() {
                r + 1
            } else {
                s.len() as int
            }
        } else {
            h + 1
        }
    } else if b == BaseType::BASE_UNOP {
        if h + 2 <= s.len() {
            h + 2
        } else {
            s.len() as int
        }
    } else {
        h + 1
    }
}

pub proof fn lemma_guarded_end(s: Seq<TokenView>, h: int)
    requires
        0 <= h < s.len(),
    ensures
        h < guarded_end(s, h) <= s.len(),
{
    let r = find_kind(s, h, TokenType::RIGHT_BRACKET);
    lemma_find_kind(s, h, TokenType::RIGHT_BRACKET);
    lemma_block_end(s, r + 2, 0);
    lemma_stmt_end(s, r + 1);
}

pub proof fn lemma_next_pos(s: Seq<TokenView>, h: int)
    requires
        0 <= h < s.len(),
    ensures
        h < next_pos(s, h) <= s.len(),
{
    lemma_guarded_end(s, h);
    if h + 1 < s.len() {
        lemma_guarded_end(s, h + 1);
    }
    lemma_stmt_end(s, h);
    lemma_stmt_end(s, h + 1);
    lemma_stmt_end(s, h + 2);
    lemma_block_end(s, h + 2, 0);
    lemma_stmt_end(s, block_end(s, h + 2, 0));
    let f = find_kind(s, h + 2, TokenType::LEFT_CBRACE);
    lemma_find_kind(s, h + 2, TokenType::LEFT_CBRACE);
    lemma_block_end(s, f + 1, 0);
    lemma_find_kind(s, h, TokenType::RIGHT_BRACKET);
}

pub proof fn lemma_decl_walk(
    tr: Translator,
    s: Seq<TokenView>,
    i: int,
    name: Seq<char>,
    assigned: bool,
    val: Seq<char>,
)
    ensures
        decl_walk(tr, s, i, name, assigned, val).1 matches Some(j) ==> 2 <= j < s.len() && i <= j,
    decreases s.len() + 1 - i,
{
    if 0 <= i < s.len() {
        let k = kind_at(s, i);
        if k == TokenType::IDENTIFIER {
            lemma_decl_walk(tr, s, i + 1, text_at(s, i), assigned, val);
        } else if k == TokenType::OP_ASSIGN {
            lemma_decl_walk(tr, s, i + 2, name, true, text_at(s, i + 1));
        } else if k == TokenType::COMMA {
            lemma_decl_walk(tr, s, i + 1, "undefined_var"@, false, "NONE"@);
        } else if k != TokenType::SEMICOLON && !(k == TokenType::LEFT_SBRACKET && i >= 2) {
            lemma_decl_walk(tr, s, i + 1, name, assigned, val);
        }
    }
}

/// The translation of a whole token sequence.
pub open spec fn translate(tr: Translator, s: Seq<TokenView>) -> Seq<Seq<char>> {
    prog_from(tr, s, 0)
}

/// The dispatcher: the constructs from position `h` on, each translated in
/// turn.
pub open spec fn prog_from(tr: Translator, s: Seq<TokenView>, h: int) -> Seq<Seq<char>>
    decreases s.len(),
        if s.len() == 0 {
            0nat
        } else {
            3nat
        },
        s.len() - h,
{
    if h < 0 || h >= s.len() {
        seq![]
    } else {
        proof {
            lemma_next_pos(s, h);
        }
        step_out(tr, s, h) + prog_from(tr, s, next_pos(s, h))
    }
}

/// What the dispatcher emits for the construct that begins at `h`.
pub open spec fn step_out(tr: Translator, s: Seq<TokenView>, h: int) -> Seq<Seq<char>>
    decreases s.len(), 2nat, 0int,
{
    if h < 0 || h >= s.len() {
        seq![]
    } else {
        proof {
            lemma_next_pos(s, h);
            lemma_find_kind(s, h + 2, TokenType::LEFT_CBRACE);
            let open = find_kind(s, h + 2, TokenType::LEFT_CBRACE);
            lemma_span(s, h, next_pos(s, h));
            lemma_span(s, else_body_start(s, h), next_pos(s, h));
            lemma_span(s, h + 2, open - 1);
            lemma_span(s, open + 1, next_pos(s, h));
        }
        let k = kind_at(s, h);
        let b = base_at(s, h);
        let e = next_pos(s, h);
        let here = span_of(s, h, e);
        if b == BaseType::BASE_DATATYPE {
            let k2 = kind_at(s, h + 2);
            if k2 == TokenType::LEFT_BRACKET {
                function_out(Translator { in_block: true, ..tr }, here)
            } else if k2 == TokenType::LEFT_SBRACKET {
                array_out(tr, here)
            } else if k2 == TokenType::SEMICOLON || k2 == TokenType::COMMA || k2
                == TokenType::OP_ASSIGN {
                decl_out(tr, here)
            } else {
                seq![text_at(s, h)]
            }
        } else if k == TokenType::KEYWORD_IF {
            if_out(tr, here)
        } else if k == TokenType::KEYWORD_ELSE {
            let body = prog_from(tr, span_of(s, else_body_start(s, h), e), 0);
            if kind_at(s, h + 1) == TokenType::KEYWORD_IF {
                seq!["else"@] + body
            } else {
                seq!["else"@, "{"@] + body + seq!["}"@]
            }
        } else if k == TokenType::KEYWORD_SWITCH {
            let open = find_kind(s, h + 2, TokenType::LEFT_CBRACE);
            let subject = span_of(s, h + 2, open - 1);
            let subject_out = if subject.len() == 1 {
                seq![text_at(s, h + 2)]
            } else {
                prog_from(tr, subject, 0)
            };
            seq!["match"@] + subject_out + seq!["{"@] + case_out(tr, span_of(s, open + 1, e))
                + seq!["}"@]
        } else if k == TokenType::KEYWORD_WHILE {
            while_out(tr, here)
        } else if k == TokenType::KEYWORD_DO {
            dowhile_out(tr, here)
        } else if k == TokenType::KEYWORD_FOR {
            for_out(tr, here)
        } else if b == BaseType::BASE_COMMENT {
            seq![text_at(s, h) + "\n"@]
        } else if k == TokenType::IDENTIFIER {
            if kind_at(s, h + 1) == TokenType::OP_ASSIGN {
                assign_out(tr, here)
            } else if base_at(s, h + 1) == BaseType::BASE_UNOP {
                if tr.in_expr {
                    seq![]
                } else {
                    seq![text_at(s, h), step_text(kind_at(s, h + 1))]
                }
            } else if base_at(s, h + 1) == BaseType::BASE_BINOP {
                expr_out(here)
            } else if kind_at(s, h + 1) == TokenType::LEFT_BRACKET {
                texts(here)
            } else {
                seq![text_at(s, h)]
            }
        } else if b == BaseType::BASE_UNOP {
            seq![text_at(s, h + 1), step_text(k)]
        } else if k == TokenType::RIGHT_CBRACE {
            seq![]
        } else if k == TokenType::COMMA {
            seq![";"@]
        } else {
            seq![text_at(s, h)]
        }
    }
}

/// A function definition: `Type name ( params ) { body }`.
pub open spec fn function_out(tr: Translator, s: Seq<TokenView>) -> Seq<Seq<char>>
    decreases s.len(), 1nat, 0int,
{
    let is_main = kind_at(s, 1) == TokenType::MAIN;
    let close = find_kind(s, 3, TokenType::RIGHT_BRACKET);
    let header = if !is_main {
        seq!["fn"@, text_at(s, 1), "("@] + args_from(span_of(s, 3, close), 0) + seq![")"@]
            + ret_clause(type_code_of(kind_at(s, 0))) + seq!["{"@]
    } else {
        seq!["fn"@, text_at(s, 1), "("@, ")"@, "{"@] + (if kind_at(s, 3)
            != TokenType::RIGHT_BRACKET {
            seq!["let mut argv = env::args();"@, "let mut argc = argv.len();"@]
        } else {
            seq![]
        })
    };
    let open = find_kind(
        s,
        if is_main {
            3
        } else {
            close
        },
        TokenType::LEFT_CBRACE,
    );
    proof {
        lemma_span(s, open + 1, s.len() - 1);
    }
    header + prog_from(tr, span_of(s, open + 1, s.len() - 1), 0) + seq!["}"@]
}

/// The type fragment of an array declaration `Type name [ N ]`: `:[T;N]`.
pub open spec fn array_type(s: Seq<TokenView>) -> Seq<char> {
    ":["@ + declared_type(type_code_of(kind_at(s, 0))) + ";"@ + text_at(s, 3) + "]"@
}

/// An array declaration: `Type name [ N ]` then `;`, `= { ... } ;` or
/// `, more ;`.
pub open spec fn array_out(tr: Translator, s: Seq<TokenView>) -> Seq<Seq<char>>
    decreases s.len(), 0nat, 0int,
{
    let head = seq!["let mut"@, text_at(s, 1), array_type(s)];
    if kind_at(s, 5) == TokenType::COMMA {
        proof {
            lemma_stmt_end(s, 6);
            lemma_span(s, 6, stmt_end(s, 6));
        }
        head + seq![";"@] + prog_from(tr, seq![s[0]] + span_of(s, 6, stmt_end(s, 6)), 0)
    } else if kind_at(s, 5) == TokenType::OP_ASSIGN {
        head + array_init(s, 5) + seq!["];"@]
    } else {
        head + seq![";"@]
    }
}

/// A scalar declaration: `Type a [= v], b [= w] ... ;`. An array among the
/// names is handed to the array translator, whose output comes first.
pub open spec fn decl_out(tr: Translator, s: Seq<TokenView>) -> Seq<Seq<char>>
    decreases s.len(), 1nat, 0int,
{
    let w = decl_walk(tr, s, 1, "undefined_var"@, false, "NONE"@);
    match w.1 {
        Some(j) => {
            proof {
                lemma_decl_walk(tr, s, 1, "undefined_var"@, false, "NONE"@);
                lemma_stmt_end(s, j - 1);
                lemma_span(s, j - 1, stmt_end(s, j - 1));
            }
            array_out(tr, seq![s[0]] + span_of(s, j - 1, stmt_end(s, j - 1))) + w.0
        },
        None => w.0,
    }
}

/// An `if` statement: `if ( cond ) body`.
pub open spec fn if_out(tr: Translator, s: Seq<TokenView>) -> Seq<Seq<char>>
    decreases s.len(), 1nat, 0int,
{
    let close = find_kind(s, 2, TokenType::RIGHT_BRACKET);
    proof {
        lemma_find_kind(s, 2, TokenType::RIGHT_BRACKET);
        lemma_span(s, body_start(s, close), s.len() as int);
    }
    seq!["if"@] + texts(span_of(s, 2, close)) + seq!["{"@] + prog_from(
        tr,
        span_of(s, body_start(s, close), s.len() as int),
        0,
    ) + seq!["}"@]
}

/// The keyword and condition of a loop: `loop` where the condition is empty.
pub open spec fn loop_head(cond: Seq<TokenView>) -> Seq<Seq<char>> {
    if cond.len() == 0 {
        seq!["loop"@]
    } else {
        seq!["while"@] + texts(cond)
    }
}

/// A `while` statement: `while ( cond ) body`.
pub open spec fn while_out(tr: Translator, s: Seq<TokenView>) -> Seq<Seq<char>>
    decreases s.len(), 1nat, 0int,
{
    let close = find_kind(s, 2, TokenType::RIGHT_BRACKET);
    proof {
        lemma_find_kind(s, 2, TokenType::RIGHT_BRACKET);
        lemma_span(s, body_start(s, close), s.len() as int);
    }
    loop_head(span_of(s, 2, close)) + seq!["{"@] + prog_from(
        tr,
        span_of(s, body_start(s, close), s.len() as int),
        0,
    ) + seq!["}"@]
}

/// A `do { body } while ( cond ) ;` statement, written as a `while` whose
/// block ends with the condition, and an empty body.
pub open spec fn dowhile_out(tr: Translator, s: Seq<TokenView>) -> Seq<Seq<char>>
    decreases s.len(), 1nat, 0int,
{
    let close = block_end(s, 2, 0) - 1;
    let cond_end = find_kind(s, close + 3, TokenType::RIGHT_BRACKET);
    proof {
        lemma_span(s, 2, close);
    }
    seq!["while"@, "{"@] + prog_from(tr, span_of(s, 2, close), 0) + texts(
        span_of(s, close + 3, cond_end),
    ) + seq!["}"@, "{"@, "}"@, ";"@]
}

/// `i + d`, or the length of `s` where that passes it.
pub open spec fn adv(s: Seq<TokenView>, i: int, d: int) -> int {
    if i + d <= s.len() {
        i + d
    } else {
        s.len() as int
    }
}

/// The layout of one `switch` arm that begins at `i`: whether it is the
/// `default` arm, the span of its statements, and where the next arm begins.
pub struct CaseArm {
    pub is_default: bool,
    pub lo: int,
    pub hi: int,
    pub next: int,
}

pub open spec fn case_arm(s: Seq<TokenView>, i: int) -> CaseArm {
    let is_default = kind_at(s, i) == TokenType::KEYWORD_DEFAULT;
    let after_colon = adv(
        s,
        i,
        if is_default {
            2
        } else {
            3
        },
    );
    let braced = kind_at(s, after_colon) == TokenType::LEFT_CBRACE;
    let lo = if braced {
        after_colon + 1
    } else {
        after_colon
    };
    let hi = if braced {
        block_end(s, lo, 0) - 1
    } else {
        case_arm_end(s, lo)
    };
    let stop = if hi > lo {
        hi
    } else {
        lo
    };
    let next = if stop < s.len() && kind_at(s, stop) == TokenType::RIGHT_CBRACE {
        stop + 1
    } else {
        stop
    };
    CaseArm { is_default, lo, hi, next }
}

pub proof fn lemma_case_arm(s: Seq<TokenView>, i: int)
    requires
        0 <= i < s.len(),
    ensures
        i < case_arm(s, i).next <= s.len(),
        1 <= case_arm(s, i).lo,
        case_arm(s, i).hi <= s.len(),
{
    let a = case_arm(s, i);
    lemma_block_end(s, a.lo, 0);
    lemma_case_arm_end(s, a.lo);
}

/// The arms of a `switch` block from position `i`, up to the brace that
/// closes the block; the flag tells whether a `default` arm was among them.
pub open spec fn case_walk(tr: Translator, s: Seq<TokenView>, i: int) -> (Seq<Seq<char>>, bool)
    decreases s.len(), 0nat, s.len() - i,
{
    if i < 0 || i >= s.len() || kind_at(s, i) == TokenType::RIGHT_CBRACE {
        (seq![], false)
    } else {
        let arm = case_arm(s, i);
        let label = if arm.is_default {
            "_"@
        } else {
            text_at(s, i + 1)
        };
        proof {
            lemma_case_arm(s, i);
            lemma_span(s, arm.lo, arm.hi);
        }
        let rest = case_walk(tr, s, arm.next);
        (
            seq![label, "=>"@, "{"@] + prog_from(tr, span_of(s, arm.lo, arm.hi), 0) + seq!["}"@]
                + rest.0,
            arm.is_default || rest.1,
        )
    }
}

/// The arms of a `switch` block, with an empty `_` arm added where the source
/// had no `default`.
pub open spec fn case_out(tr: Translator, s: Seq<TokenView>) -> Seq<Seq<char>>
    decreases s.len(), 1nat, 0int,
{
    let w = case_walk(tr, s, 0);
    if w.1 {
        w.0
    } else {
        w.0 + seq!["_"@, "=>"@, "{"@, "}"@]
    }
}

/// The synthetic semicolon that closes the update part of a `for` header.
pub open spec fn semicolon_view() -> TokenView {
    TokenView { text: ";"@, base: BaseType::BASE_NONE, kind: TokenType::SEMICOLON }
}

/// The layout of a `for` statement: the spans of its initialisation,
/// condition, update and body, and whether the first two are present.
pub struct ForHeader {
    pub init_lo: int,
    pub init_hi: int,
    pub has_init: bool,
    pub cond_lo: int,
    pub cond_hi: int,
    pub has_cond: bool,
    pub upd_lo: int,
    pub upd_hi: int,
    pub body_lo: int,
    pub body_hi: int,
}

pub open spec fn for_header(s: Seq<TokenView>) -> ForHeader {
    let p = adv(s, find_kind(s, 0, TokenType::LEFT_BRACKET), 1);
    let e1 = stmt_end(s, p);
    let has_init = p + 1 < e1;
    let h1 = if has_init {
        e1
    } else {
        adv(s, p, 1)
    };
    let e2 = stmt_end(s, e1);
    let has_cond = h1 + 1 < e2;
    let h2 = if has_cond {
        e2
    } else {
        adv(s, h1, 1)
    };
    let close = find_kind(s, h2, TokenType::RIGHT_BRACKET);
    let b0 = adv(s, close, 1);
    let braced = kind_at(s, b0) == TokenType::LEFT_CBRACE;
    ForHeader {
        init_lo: p,
        init_hi: e1,
        has_init,
        cond_lo: h1,
        cond_hi: e2 - 1,
        has_cond,
        upd_lo: h2,
        upd_hi: close,
        body_lo: if braced {
            b0 + 1
        } else {
            b0
        },
        body_hi: if braced {
            block_end(s, b0 + 1, 0)
        } else {
            stmt_end(s, b0)
        },
    }
}

pub proof fn lemma_for_header(s: Seq<TokenView>)
    ensures
        ({
            let hd = for_header(s);
            &&& s.len() > 0 ==> 1 <= hd.init_lo
            &&& 0 <= hd.init_lo
            &&& hd.init_hi <= s.len()
            &&& hd.has_cond ==> 0 <= hd.cond_lo < hd.cond_hi < s.len()
            &&& 0 <= hd.upd_lo <= s.len()
            &&& hd.upd_lo < hd.upd_hi ==> 3 <= hd.upd_lo && hd.upd_hi <= s.len()
            &&& s.len() > 0 ==> 1 <= hd.body_lo
            &&& hd.body_hi <= s.len()
        }),
{
    let lb = find_kind(s, 0, TokenType::LEFT_BRACKET);
    lemma_find_kind(s, 0, TokenType::LEFT_BRACKET);
    let p = adv(s, lb, 1);
    lemma_stmt_end(s, p);
    let e1 = stmt_end(s, p);
    lemma_stmt_end(s, e1);
    let hd = for_header(s);
    lemma_find_kind(s, hd.upd_lo, TokenType::RIGHT_BRACKET);
    let b0 = adv(s, hd.upd_hi, 1);
    lemma_block_end(s, b0 + 1, 0);
    lemma_stmt_end(s, b0);
}

/// A `for ( init ; cond ; update ) body` statement: the initialisation, then
/// a `while` (or `loop`) whose block ends with the update.
pub open spec fn for_out(tr: Translator, s: Seq<TokenView>) -> Seq<Seq<char>>
    decreases s.len(), 1nat, 0int,
{
    let hd = for_header(s);
    proof {
        lemma_for_header(s);
        lemma_span(s, hd.init_lo, hd.init_hi);
        lemma_span(s, hd.upd_lo, hd.upd_hi);
        lemma_span(s, hd.body_lo, hd.body_hi);
    }
    let init_span = span_of(s, hd.init_lo, hd.init_hi);
    let init = if !hd.has_init {
        seq![]
    } else if base_at(s, hd.init_lo) == BaseType::BASE_DATATYPE {
        decl_out(tr, init_span)
    } else {
        assign_out(tr, init_span)
    };
    let cond = if hd.has_cond {
        span_of(s, hd.cond_lo, hd.cond_hi)
    } else {
        seq![]
    };
    let update = if hd.upd_hi <= hd.upd_lo {
        seq![]
    } else {
        prog_from(tr, span_of(s, hd.upd_lo, hd.upd_hi) + seq![semicolon_view()], 0)
    };
    init + loop_head(cond) + seq!["{"@] + prog_from(tr, span_of(s, hd.body_lo, hd.body_hi), 0)
        + update + seq!["}"@]
}

/// The position just after the first semicolon or comma from position 2, or
/// the length of `s`: the end of the tail of a chained assignment.
pub open spec fn term_pos_end(s: Seq<TokenView>) -> int {
    let t = term_pos(s, 2);
    if t < s.len() {
        t + 1
    } else {
        s.len() as int
    }
}

/// An assignment `a = rhs ;` (or ending with a comma). An operator in the
/// right-hand side makes it an expression statement; a chained assignment
/// `a = b = ... ;` emits the tail first, then `a = b ;`.
pub open spec fn assign_out(tr: Translator, s: Seq<TokenView>) -> Seq<Seq<char>>
    decreases s.len(), 1nat, 0int,
{
    if base_at(s, 2) == BaseType::BASE_UNOP || base_at(s, 3) == BaseType::BASE_UNOP || base_at(
        s,
        3,
    ) == BaseType::BASE_BINOP {
        seq![text_at(s, 0), text_at(s, 1)] + expr_out(span_of(s, 2, stmt_end(s, 2)))
    } else {
        let tail = if kind_at(s, 3) != TokenType::SEMICOLON && kind_at(s, 3)
            != TokenType::COMMA {
            proof {
                lemma_term_pos(s, 2);
                lemma_span(s, 2, term_pos_end(s));
            }
            prog_from(tr, span_of(s, 2, term_pos_end(s)), 0)
        } else {
            seq![]
        };
        tail + seq![text_at(s, 0), text_at(s, 1), text_at(s, 2), ";"@]
    }
}

} // verus!
