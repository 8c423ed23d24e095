//! The translators: each turns a span of tokens into target fragments, as the
//! model in `model` prescribes.
use vstd::prelude::*;
use vstd::string::StringExecFns;
use crate::emit::{frags, put, put_all, put_string, put_texts};
use crate::lexeme::{
    BaseType, Token, TokenType, base_of, clamp_add, copy_span, kind_at, kind_of, lemma_span, model,
    span_of, text_of, type_code_of, with_head,
};
use crate::model::{
    Translator, args_from, array_init, array_out, assign_out, body_start, case_arm, case_out,
    case_walk, decl_line, decl_out, decl_walk, dowhile_out, expr_out, expr_walk, for_header,
    for_out, function_out, guarded_end, if_out, lemma_case_arm, lemma_for_header, lemma_next_pos,
    next_pos, prog_from, ret_clause, semicolon_view, step_out, step_text, translate, while_out,
};
use crate::scan::{
    find, find_case_arm_end, find_term, lemma_block_end, lemma_find_kind,
    lemma_stmt_end, lemma_term_pos, skip_block, skip_stmt,
};
use crate::types::{VOID_CODE, declared_type, declared_type_of, parse_type};

verus! {

/// The statement text of an increment or decrement operator.
fn step_op(t: TokenType) -> (r: String)
    ensures
        r@ == step_text(t),
{
    if t == TokenType::OP_INC {
        "+=1".to_string()
    } else if t == TokenType::OP_DEC {
        "-=1".to_string()
    } else {
        " ;".to_string()
    }
}

/// Translates formal parameters `Type name, ...` into `name : Type, ...`.
pub fn parse_arguments(lexeme: &Vec<Token>) -> (r: Vec<String>)
    ensures
        frags(r@) == args_from(model(lexeme@), 0),
{
    let ghost s = model(lexeme@);
    let n = lexeme.len();
    let mut stream: Vec<String> = Vec::new();
    let mut head: usize = 0;
    while head < n
        invariant
            n == lexeme.len(),
            s == model(lexeme@),
            head <= n,
            frags(stream@) + args_from(s, head as int) == args_from(s, 0),
        decreases n - head,
    {
        let ghost before = frags(stream@);
        let ghost h = head as int;
        if lexeme[head].kind == TokenType::COMMA {
            put(&mut stream, ",");
            head += 1;
            assert(before + args_from(s, h) =~= frags(stream@) + args_from(s, head as int));
        } else {
            put_string(&mut stream, text_of(lexeme, head + 1));
            put(&mut stream, ":");
            if let Some(t) = parse_type(lexeme[head].kind.type_code()) {
                put_string(&mut stream, t);
            }
            head = clamp_add(head, 2, n);
            assert(args_from(s, head as int) == args_from(s, h + 2));
            assert(before + args_from(s, h) =~= frags(stream@) + args_from(s, h + 2));
        }
    }
    assert(frags(stream@) =~= frags(stream@) + args_from(s, head as int));
    stream
}

/// Translates an expression statement: prefix operators become
/// `( x +=1 )` in place, postfix ones become statements after the semicolon.
pub fn parse_expr(lexeme: &Vec<Token>) -> (r: Vec<String>)
    ensures
        frags(r@) == expr_out(model(lexeme@)),
{
    let ghost s = model(lexeme@);
    let ghost w0 = expr_walk(s, 0, false, " "@);
    let n = lexeme.len();
    let mut stream: Vec<String> = Vec::new();
    let mut post: Vec<String> = Vec::new();
    let mut i: usize = 0;
    let mut after_ident = false;
    let mut prev = " ".to_string();
    while i < n && lexeme[i].kind != TokenType::SEMICOLON
        invariant
            n == lexeme.len(),
            s == model(lexeme@),
            i <= n,
            frags(stream@) + expr_walk(s, i as int, after_ident, prev@).0 == w0.0,
            frags(post@) + expr_walk(s, i as int, after_ident, prev@).1 == w0.1,
        decreases n - i,
    {
        let ghost main0 = frags(stream@);
        let ghost post0 = frags(post@);
        let ghost w = expr_walk(s, i as int, after_ident, prev@);
        let k = lexeme[i].kind;
        if lexeme[i].base == BaseType::BASE_UNOP {
            if after_ident {
                put_string(&mut post, prev);
                put_string(&mut post, step_op(k));
                put(&mut post, ";");
                after_ident = k == TokenType::IDENTIFIER;
                prev = lexeme[i].value.clone();
                i += 1;
                assert(post0 + w.1 =~= frags(post@) + expr_walk(s, i as int, after_ident, prev@).1);
            } else {
                put(&mut stream, "(");
                put_string(&mut stream, text_of(lexeme, i + 1));
                put_string(&mut stream, step_op(k));
                put(&mut stream, ")");
                after_ident = kind_of(lexeme, i + 1) == TokenType::IDENTIFIER;
                prev = text_of(lexeme, i + 1);
                let ghost i0 = i as int;
                i = clamp_add(i, 2, n);
                assert(expr_walk(s, i as int, after_ident, prev@) == expr_walk(
                    s,
                    i0 + 2,
                    after_ident,
                    prev@,
                ));
                assert(main0 + w.0 =~= frags(stream@) + expr_walk(
                    s,
                    i as int,
                    after_ident,
                    prev@,
                ).0);
            }
        } else {
            put_string(&mut stream, lexeme[i].value.clone());
            after_ident = k == TokenType::IDENTIFIER;
            prev = lexeme[i].value.clone();
            i += 1;
            assert(main0 + w.0 =~= frags(stream@) + expr_walk(s, i as int, after_ident, prev@).0);
        }
    }
    assert(frags(stream@) =~= w0.0);
    assert(frags(post@) =~= w0.1);
    put(&mut stream, ";");
    put_all(&mut stream, post);
    stream
}

/// The end of the construct with a parenthesised header that begins at `h`.
fn guarded_stop(v: &Vec<Token>, h: usize) -> (r: usize)
    ensures
        r == guarded_end(model(v@), h as int),
{
    let n = v.len();
    let close = find(v, h, TokenType::RIGHT_BRACKET);
    proof {
        lemma_find_kind(model(v@), h as int, TokenType::RIGHT_BRACKET);
    }
    let a = clamp_add(close, 1, n);
    if kind_of(v, a) == TokenType::LEFT_CBRACE {
        skip_block(v, a + 1)
    } else {
        skip_stmt(v, a)
    }
}

impl Translator {
    /// A translator at file scope, outside any expression.
    pub fn new() -> (r: Translator)
        ensures
            r == (Translator { in_block: false, in_expr: false }),
    {
        Translator { in_block: false, in_expr: false }
    }

    /// Appends the line of one declared name: storage, name, type and the
    /// initialiser if there is one.
    fn put_decl_line(
        &self,
        out: &mut Vec<String>,
        ty: &String,
        name: String,
        assigned: bool,
        val: String,
    )
        ensures
            frags(final(out)@) == frags(old(out)@) + decl_line(*self, ty@, name@, assigned, val@),
    {
        let ghost start = frags(out@);
        let ghost nv = name@;
        let ghost vv = val@;
        if self.in_block {
            put(out, "let mut");
        } else {
            put(out, "static");
        }
        put_string(out, name);
        put(out, ":");
        put_string(out, ty.clone());
        if assigned {
            put(out, "=");
            put_string(out, val);
        }
        put(out, ";");
        assert(frags(out@) =~= start + decl_line(*self, ty@, nv, assigned, vv));
    }

    /// Translates a whole token sequence, construct by construct.
    pub fn parse_program(&mut self, lexeme: &Vec<Token>) -> (r: Vec<String>)
        ensures
            *final(self) == *old(self),
            frags(r@) == translate(*old(self), model(lexeme@)),
        decreases lexeme@.len(),
            if lexeme@.len() == 0 {
                0nat
            } else {
                3nat
            },
    {
        let ghost tr = *self;
        let ghost s = model(lexeme@);
        let mut stream: Vec<String> = Vec::new();
        let mut head: usize = 0;
        while head < lexeme.len()
            invariant
                *self == tr,
                s == model(lexeme@),
                head <= lexeme.len(),
                frags(stream@) + prog_from(tr, s, head as int) == prog_from(tr, s, 0),
            decreases lexeme.len() - head,
        {
            let ghost before = frags(stream@);
            let ghost h = head as int;
            proof {
                lemma_next_pos(s, h);
            }
            head = self.dispatch(lexeme, head, &mut stream);
            assert(before + prog_from(tr, s, h) =~= frags(stream@) + prog_from(
                tr,
                s,
                head as int,
            ));
        }
        assert(frags(stream@) =~= frags(stream@) + prog_from(tr, s, head as int));
        stream
    }

    /// Translates the construct that begins at `head` onto `out`, and returns
    /// the position after it.
    #[verifier::rlimit(100)]
    fn dispatch(&mut self, lexeme: &Vec<Token>, head: usize, out: &mut Vec<String>) -> (next:
        usize)
        requires
            head < lexeme.len(),
        ensures
            *final(self) == *old(self),
            next == next_pos(model(lexeme@), head as int),
            frags(final(out)@) == frags(old(out)@) + step_out(
                *old(self),
                model(lexeme@),
                head as int,
            ),
        decreases lexeme@.len(), 2nat,
    {
        let ghost tr = *self;
        let ghost s = model(lexeme@);
        let ghost start = frags(out@);
        let ghost h = head as int;
        let n = lexeme.len();
        proof {
            lemma_next_pos(s, h);
            lemma_find_kind(s, h + 2, TokenType::LEFT_CBRACE);
        }
        let k = lexeme[head].kind;
        let b = lexeme[head].base;
        if b == BaseType::BASE_DATATYPE {
            let k2 = kind_of(lexeme, clamp_add(head, 2, n));
            if k2 == TokenType::LEFT_BRACKET {
                let open = find(lexeme, head + 2, TokenType::LEFT_CBRACE);
                let e = skip_block(lexeme, clamp_add(open, 1, n));
                let span = copy_span(lexeme, head, e);
                proof {
                    lemma_span(s, h, e as int);
                }
                let saved = self.in_block;
                self.in_block = true;
                let r = self.parse_function(&span);
                self.in_block = saved;
                put_all(out, r);
                e
            } else if k2 == TokenType::LEFT_SBRACKET {
                let e = skip_stmt(lexeme, head + 2);
                let span = copy_span(lexeme, head, e);
                proof {
                    lemma_span(s, h, e as int);
                }
                let r = self.parse_array_declaration(&span);
                put_all(out, r);
                e
            } else if k2 == TokenType::SEMICOLON || k2 == TokenType::COMMA || k2
                == TokenType::OP_ASSIGN {
                let e = skip_stmt(lexeme, head + 2);
                let span = copy_span(lexeme, head, e);
                proof {
                    lemma_span(s, h, e as int);
                }
                let r = self.parse_declaration(&span);
                put_all(out, r);
                e
            } else {
                put_string(out, lexeme[head].value.clone());
                head + 1
            }
        } else if k == TokenType::KEYWORD_IF {
            let e = guarded_stop(lexeme, head);
            let span = copy_span(lexeme, head, e);
            proof {
                lemma_span(s, h, e as int);
            }
            let r = self.parse_if(&span);
            put_all(out, r);
            e
        } else if k == TokenType::KEYWORD_ELSE {
            let h1 = head + 1;
            let else_if = kind_of(lexeme, h1) == TokenType::KEYWORD_IF;
            let e = if else_if {
                guarded_stop(lexeme, h1)
            } else if kind_of(lexeme, h1) == TokenType::LEFT_CBRACE {
                skip_block(lexeme, h1 + 1)
            } else {
                skip_stmt(lexeme, h1)
            };
            let from = if kind_of(lexeme, h1) == TokenType::LEFT_CBRACE {
                h1 + 1
            } else {
                h1
            };
            let body = copy_span(lexeme, from, e);
            proof {
                lemma_span(s, from as int, e as int);
            }
            let r = self.parse_program(&body);
            put(out, "else");
            if !else_if {
                put(out, "{");
            }
            put_all(out, r);
            if !else_if {
                put(out, "}");
            }
            assert(frags(out@) =~= start + step_out(tr, s, h));
            e
        } else if k == TokenType::KEYWORD_SWITCH {
            let subject_start = clamp_add(head, 2, n);
            let open = find(lexeme, subject_start, TokenType::LEFT_CBRACE);
            put(out, "match");
            let subject = copy_span(lexeme, subject_start, open - 1);
            proof {
                lemma_span(s, subject_start as int, open - 1);
                assert(span_of(s, subject_start as int, open - 1) =~= span_of(s, h + 2, open - 1));
            }
            if subject.len() == 1 {
                put_string(out, text_of(lexeme, subject_start));
            } else {
                let r = self.parse_program(&subject);
                put_all(out, r);
            }
            put(out, "{");
            let body_start = clamp_add(open, 1, n);
            let e = skip_block(lexeme, body_start);
            let arms = copy_span(lexeme, body_start, e);
            proof {
                lemma_span(s, body_start as int, e as int);
                assert(span_of(s, body_start as int, e as int) =~= span_of(s, open + 1, e as int));
            }
            let r = self.parse_case(&arms);
            put_all(out, r);
            put(out, "}");
            assert(frags(out@) =~= start + step_out(tr, s, h));
            e
        } else if k == TokenType::KEYWORD_WHILE {
            let e = guarded_stop(lexeme, head);
            let span = copy_span(lexeme, head, e);
            proof {
                lemma_span(s, h, e as int);
            }
            let r = self.parse_while(&span);
            put_all(out, r);
            e
        } else if k == TokenType::KEYWORD_DO {
            let e = skip_stmt(lexeme, skip_block(lexeme, clamp_add(head, 2, n)));
            let span = copy_span(lexeme, head, e);
            proof {
                lemma_span(s, h, e as int);
            }
            let r = self.parse_dowhile(&span);
            put_all(out, r);
            e
        } else if k == TokenType::KEYWORD_FOR {
            let e = guarded_stop(lexeme, head);
            let span = copy_span(lexeme, head, e);
            proof {
                lemma_span(s, h, e as int);
            }
            let r = self.parse_for(&span);
            put_all(out, r);
            e
        } else if b == BaseType::BASE_COMMENT {
            let mut c = lexeme[head].value.clone();
            c.append("\n");
            put_string(out, c);
            head + 1
        } else if k == TokenType::IDENTIFIER {
            let k1 = kind_of(lexeme, head + 1);
            let b1 = base_of(lexeme, head + 1);
            if k1 == TokenType::OP_ASSIGN {
                let e = if kind_of(lexeme, clamp_add(head, 3, n)) == TokenType::COMMA {
                    head + 4
                } else {
                    skip_stmt(lexeme, head)
                };
                let span = copy_span(lexeme, head, e);
                proof {
                    lemma_span(s, h, e as int);
                }
                let r = self.parse_assignment(&span);
                put_all(out, r);
                e
            } else if b1 == BaseType::BASE_UNOP {
                if !self.in_expr {
                    put_string(out, lexeme[head].value.clone());
                    put_string(out, step_op(k1));
                }
                assert(frags(out@) =~= start + step_out(tr, s, h));
                head + 2
            } else if b1 == BaseType::BASE_BINOP {
                let e = skip_stmt(lexeme, head);
                let span = copy_span(lexeme, head, e);
                let r = parse_expr(&span);
                put_all(out, r);
                e
            } else if k1 == TokenType::LEFT_BRACKET {
                let close = find(lexeme, head, TokenType::RIGHT_BRACKET);
                let e = if close < n {
                    close + 1
                } else {
                    n
                };
                put_texts(out, lexeme, head, e);
                e
            } else {
                put_string(out, lexeme[head].value.clone());
                head + 1
            }
        } else if b == BaseType::BASE_UNOP {
            put_string(out, text_of(lexeme, head + 1));
            put_string(out, step_op(k));
            assert(frags(out@) =~= start + step_out(tr, s, h));
            clamp_add(head, 2, n)
        } else {
            if k == TokenType::RIGHT_CBRACE {
            } else if k == TokenType::COMMA {
                put(out, ";");
            } else {
                put_string(out, lexeme[head].value.clone());
            }
            assert(frags(out@) =~= start + step_out(tr, s, h));
            head + 1
        }
    }

    /// Translates a function definition `Type name ( params ) { body }`.
    #[verifier::rlimit(100)]
    pub fn parse_function(&mut self, lexeme: &Vec<Token>) -> (r: Vec<String>)
        ensures
            *final(self) == *old(self),
            frags(r@) == function_out(*old(self), model(lexeme@)),
        decreases lexeme@.len(), 1nat,
    {
        let ghost tr = *self;
        let ghost s = model(lexeme@);
        let n = lexeme.len();
        let mut stream: Vec<String> = Vec::new();
        let is_main = kind_of(lexeme, 1) == TokenType::MAIN;
        put(&mut stream, "fn");
        put_string(&mut stream, text_of(lexeme, 1));
        put(&mut stream, "(");
        let close = find(lexeme, 3, TokenType::RIGHT_BRACKET);
        let from;
        if !is_main {
            let params = copy_span(lexeme, 3, close);
            put_all(&mut stream, parse_arguments(&params));
            put(&mut stream, ")");
            let ghost before = frags(stream@);
            let code = kind_of(lexeme, 0).type_code();
            if code != VOID_CODE {
                if let Some(t) = parse_type(code) {
                    put(&mut stream, "->");
                    put_string(&mut stream, t);
                }
            }
            assert(frags(stream@) =~= before + ret_clause(code as int));
            put(&mut stream, "{");
            from = close;
        } else {
            put(&mut stream, ")");
            put(&mut stream, "{");
            if kind_of(lexeme, 3) != TokenType::RIGHT_BRACKET {
                put(&mut stream, "let mut argv = env::args();");
                put(&mut stream, "let mut argc = argv.len();");
            }
            from = 3;
        }
        let open = find(lexeme, from, TokenType::LEFT_CBRACE);
        proof {
            lemma_find_kind(s, from as int, TokenType::LEFT_CBRACE);
        }
        let body_start = clamp_add(open, 1, n);
        let body_end = if n > 0 {
            n - 1
        } else {
            0
        };
        let body = copy_span(lexeme, body_start, body_end);
        proof {
            lemma_span(s, body_start as int, body_end as int);
            assert(span_of(s, body_start as int, body_end as int) =~= span_of(
                s,
                open + 1,
                s.len() - 1,
            ));
        }
        let r = self.parse_program(&body);
        put_all(&mut stream, r);
        put(&mut stream, "}");
        assert(frags(stream@) =~= function_out(tr, s));
        stream
    }

    /// Translates an array declaration `Type name [ N ] ...;`.
    pub fn parse_array_declaration(&mut self, lexeme: &Vec<Token>) -> (r: Vec<String>)
        ensures
            *final(self) == *old(self),
            frags(r@) == array_out(*old(self), model(lexeme@)),
        decreases lexeme@.len(), 0nat,
    {
        let ghost tr = *self;
        let ghost s = model(lexeme@);
        let n = lexeme.len();
        let mut stream: Vec<String> = Vec::new();
        put(&mut stream, "let mut");
        put_string(&mut stream, text_of(lexeme, 1));
        let mut ty = ":[".to_string();
        ty.append(declared_type_of(kind_of(lexeme, 0).type_code()).as_str());
        ty.append(";");
        ty.append(text_of(lexeme, 3).as_str());
        ty.append("]");
        put_string(&mut stream, ty);
        let ghost head = frags(stream@);
        let k5 = kind_of(lexeme, 5);
        if k5 == TokenType::COMMA {
            put(&mut stream, ";");
            let e = skip_stmt(lexeme, 6);
            proof {
                lemma_stmt_end(s, 6);
                lemma_span(s, 6, e as int);
            }
            let rest = with_head(lexeme, 6, e);
            let r = self.parse_program(&rest);
            put_all(&mut stream, r);
        } else if k5 == TokenType::OP_ASSIGN {
            let mut i: usize = 5;
            while i < n && lexeme[i].kind != TokenType::SEMICOLON && lexeme[i].kind
                != TokenType::RIGHT_CBRACE
                invariant
                    n == lexeme.len(),
                    s == model(lexeme@),
                    5 <= i <= n,
                    frags(stream@) + array_init(s, i as int) == head + array_init(s, 5),
                decreases n - i,
            {
                let ghost before = frags(stream@);
                if lexeme[i].kind == TokenType::LEFT_CBRACE {
                    put(&mut stream, "[");
                } else {
                    put_string(&mut stream, lexeme[i].value.clone());
                }
                i += 1;
                assert(before + array_init(s, i - 1) =~= frags(stream@) + array_init(s, i as int));
            }
            assert(frags(stream@) =~= head + array_init(s, 5));
            put(&mut stream, "];");
        } else {
            put(&mut stream, ";");
        }
        assert(frags(stream@) =~= array_out(tr, s));
        stream
    }

    /// Translates a scalar declaration `Type a [= v], b [= w] ... ;`.
    pub fn parse_declaration(&mut self, lexeme: &Vec<Token>) -> (r: Vec<String>)
        ensures
            *final(self) == *old(self),
            frags(r@) == decl_out(*old(self), model(lexeme@)),
        decreases lexeme@.len(), 1nat,
    {
        let ghost tr = *self;
        let ghost s = model(lexeme@);
        let ghost w0 = decl_walk(tr, s, 1, "undefined_var"@, false, "NONE"@);
        let n = lexeme.len();
        let ty = declared_type_of(kind_of(lexeme, 0).type_code());
        let mut lines: Vec<String> = Vec::new();
        let mut name = "undefined_var".to_string();
        let mut assigned = false;
        let mut val = "NONE".to_string();
        let mut array_at: Option<usize> = None;
        let mut i: usize = 1;
        if n == 0 {
            i = 0;
        }
        while i < n
            invariant
                n == lexeme.len(),
                s == model(lexeme@),
                *self == tr,
                ty@ == declared_type(type_code_of(kind_at(s, 0))),
                n == 0 ==> i == 0,
                n > 0 ==> 1 <= i,
                i <= n,
                array_at is None ==> frags(lines@) + decl_walk(tr, s, i as int, name@, assigned, val@).0
                    == w0.0 && decl_walk(tr, s, i as int, name@, assigned, val@).1 == w0.1,
                array_at is Some ==> i == n,
                array_at matches Some(j) ==> frags(lines@) == w0.0 && w0.1 == Some(j as int) && 2
                    <= j < n,
            decreases n - i,
        {
            let ghost before = frags(lines@);
            let ghost w = decl_walk(tr, s, i as int, name@, assigned, val@);
            let k = lexeme[i].kind;
            if k == TokenType::IDENTIFIER {
                name = lexeme[i].value.clone();
                i += 1;
            } else if k == TokenType::OP_ASSIGN {
                assigned = true;
                val = text_of(lexeme, i + 1);
                let ghost i0 = i as int;
                i = clamp_add(i, 2, n);
                assert(decl_walk(tr, s, i as int, name@, assigned, val@) == decl_walk(
                    tr,
                    s,
                    i0 + 2,
                    name@,
                    assigned,
                    val@,
                ));
            } else if k == TokenType::SEMICOLON {
                self.put_decl_line(&mut lines, &ty, name, assigned, val);
                name = "undefined_var".to_string();
                assigned = false;
                val = "NONE".to_string();
                i = n;
                assert(frags(lines@) =~= before + w.0);
            } else if k == TokenType::COMMA {
                self.put_decl_line(&mut lines, &ty, name, assigned, val);
                name = "undefined_var".to_string();
                assigned = false;
                val = "NONE".to_string();
                i += 1;
                assert(frags(lines@) + decl_walk(tr, s, i as int, name@, assigned, val@).0
                    =~= before + w.0);
            } else if k == TokenType::LEFT_SBRACKET && i >= 2 {
                array_at = Some(i);
                assert(frags(lines@) =~= before + w.0);
                i = n;
            } else {
                i += 1;
            }
        }
        let mut stream: Vec<String> = Vec::new();
        if let Some(j) = array_at {
            let e = skip_stmt(lexeme, j - 1);
            proof {
                lemma_stmt_end(s, j - 1);
                lemma_span(s, j - 1, e as int);
            }
            let whole = with_head(lexeme, j - 1, e);
            stream = self.parse_array_declaration(&whole);
        } else {
            assert(frags(lines@) =~= w0.0);
        }
        put_all(&mut stream, lines);
        stream
    }

    /// Translates `if ( cond ) body`.
    pub fn parse_if(&mut self, lexeme: &Vec<Token>) -> (r: Vec<String>)
        ensures
            *final(self) == *old(self),
            frags(r@) == if_out(*old(self), model(lexeme@)),
        decreases lexeme@.len(), 1nat,
    {
        let ghost tr = *self;
        let ghost s = model(lexeme@);
        let n = lexeme.len();
        let mut stream: Vec<String> = Vec::new();
        put(&mut stream, "if");
        let close = find(lexeme, 2, TokenType::RIGHT_BRACKET);
        proof {
            lemma_find_kind(s, 2, TokenType::RIGHT_BRACKET);
        }
        put_texts(&mut stream, lexeme, 2, close);
        put(&mut stream, "{");
        let body = self.body_after(lexeme, close);
        let r = self.parse_program(&body);
        put_all(&mut stream, r);
        put(&mut stream, "}");
        assert(frags(stream@) =~= if_out(tr, s));
        stream
    }

    /// The tokens of a loop or `if` body, from past the header's `)` (and an
    /// opening brace) to the end of the span.
    fn body_after(&self, lexeme: &Vec<Token>, close: usize) -> (r: Vec<Token>)
        requires
            close <= lexeme.len(),
        ensures
            model(r@) == span_of(
                model(lexeme@),
                body_start(model(lexeme@), close as int),
                lexeme.len() as int,
            ),
            r.len() == 0 || r.len() < lexeme.len(),
    {
        let ghost s = model(lexeme@);
        let n = lexeme.len();
        let b = if close < n && kind_of(lexeme, close + 1) == TokenType::LEFT_CBRACE {
            close + 2
        } else if close < n {
            close + 1
        } else {
            n
        };
        let r = copy_span(lexeme, b, n);
        proof {
            lemma_span(s, b as int, n as int);
            assert(span_of(s, b as int, n as int) =~= span_of(
                s,
                body_start(s, close as int),
                n as int,
            ));
        }
        r
    }

    /// Translates `while ( cond ) body`; an empty condition gives `loop`.
    pub fn parse_while(&mut self, lexeme: &Vec<Token>) -> (r: Vec<String>)
        ensures
            *final(self) == *old(self),
            frags(r@) == while_out(*old(self), model(lexeme@)),
        decreases lexeme@.len(), 1nat,
    {
        let ghost tr = *self;
        let ghost s = model(lexeme@);
        let mut stream: Vec<String> = Vec::new();
        let close = find(lexeme, 2, TokenType::RIGHT_BRACKET);
        proof {
            lemma_find_kind(s, 2, TokenType::RIGHT_BRACKET);
        }
        if close <= 2 {
            put(&mut stream, "loop");
        } else {
            put(&mut stream, "while");
            put_texts(&mut stream, lexeme, 2, close);
        }
        put(&mut stream, "{");
        let body = self.body_after(lexeme, close);
        let r = self.parse_program(&body);
        put_all(&mut stream, r);
        put(&mut stream, "}");
        assert(frags(stream@) =~= while_out(tr, s));
        stream
    }

    /// Translates `do { body } while ( cond ) ;`.
    pub fn parse_dowhile(&mut self, lexeme: &Vec<Token>) -> (r: Vec<String>)
        ensures
            *final(self) == *old(self),
            frags(r@) == dowhile_out(*old(self), model(lexeme@)),
        decreases lexeme@.len(), 1nat,
    {
        let ghost tr = *self;
        let ghost s = model(lexeme@);
        let n = lexeme.len();
        let mut stream: Vec<String> = Vec::new();
        put(&mut stream, "while");
        put(&mut stream, "{");
        let end = skip_block(lexeme, 2);
        proof {
            lemma_block_end(s, 2, 0);
        }
        let body = if end >= 1 {
            copy_span(lexeme, 2, end - 1)
        } else {
            Vec::new()
        };
        proof {
            lemma_span(s, 2, end - 1);
        }
        let r = self.parse_program(&body);
        put_all(&mut stream, r);
        let cond_start = clamp_add(end, 2, n);
        let cond_end = find(lexeme, cond_start, TokenType::RIGHT_BRACKET);
        proof {
            assert(span_of(s, cond_start as int, cond_end as int) =~= span_of(
                s,
                end - 1 + 3,
                cond_end as int,
            ));
        }
        put_texts(&mut stream, lexeme, cond_start, cond_end);
        put(&mut stream, "}");
        put(&mut stream, "{");
        put(&mut stream, "}");
        put(&mut stream, ";");
        assert(frags(stream@) =~= dowhile_out(tr, s));
        stream
    }

    /// Translates the arms of a `switch` block into `match` arms.
    pub fn parse_case(&mut self, lexeme: &Vec<Token>) -> (r: Vec<String>)
        ensures
            *final(self) == *old(self),
            frags(r@) == case_out(*old(self), model(lexeme@)),
        decreases lexeme@.len(), 1nat,
    {
        let ghost tr = *self;
        let ghost s = model(lexeme@);
        let ghost w0 = case_walk(tr, s, 0);
        let n = lexeme.len();
        let mut stream: Vec<String> = Vec::new();
        let mut has_default = false;
        let mut i: usize = 0;
        while i < n && lexeme[i].kind != TokenType::RIGHT_CBRACE
            invariant
                n == lexeme.len(),
                s == model(lexeme@),
                *self == tr,
                i <= n,
                frags(stream@) + case_walk(tr, s, i as int).0 == w0.0,
                (has_default || case_walk(tr, s, i as int).1) == w0.1,
            decreases n - i,
        {
            let ghost before = frags(stream@);
            let ghost w = case_walk(tr, s, i as int);
            let ghost arm = case_arm(s, i as int);
            proof {
                lemma_case_arm(s, i as int);
            }
            let is_default = lexeme[i].kind == TokenType::KEYWORD_DEFAULT;
            if is_default {
                put(&mut stream, "_");
            } else {
                put_string(&mut stream, text_of(lexeme, i + 1));
            }
            put(&mut stream, "=>");
            let after_colon = clamp_add(
                i,
                if is_default {
                    2
                } else {
                    3
                },
                n,
            );
            let braced = kind_of(lexeme, after_colon) == TokenType::LEFT_CBRACE;
            let lo = if braced {
                after_colon + 1
            } else {
                after_colon
            };
            proof {
                lemma_block_end(s, lo as int, 0);
            }
            let hi = if braced {
                skip_block(lexeme, lo) - 1
            } else {
                find_case_arm_end(lexeme, lo)
            };
            let stop = if hi > lo {
                hi
            } else {
                lo
            };
            let next = if stop < n && lexeme[stop].kind == TokenType::RIGHT_CBRACE {
                stop + 1
            } else {
                stop
            };
            assert(lo == arm.lo && hi == arm.hi && next == arm.next);
            let body = copy_span(lexeme, lo, hi);
            put(&mut stream, "{");
            let r = self.parse_program(&body);
            put_all(&mut stream, r);
            put(&mut stream, "}");
            i = next;
            has_default = has_default || is_default;
            assert(before + w.0 =~= frags(stream@) + case_walk(tr, s, i as int).0);
        }
        let ghost done = frags(stream@);
        assert(done =~= w0.0);
        if !has_default {
            put(&mut stream, "_");
            put(&mut stream, "=>");
            put(&mut stream, "{");
            put(&mut stream, "}");
        }
        assert(frags(stream@) =~= case_out(tr, s));
        stream
    }

    /// Translates `for ( init ; cond ; update ) body` into the initialisation
    /// and a `while` (or `loop`) that ends with the update.
    #[verifier::rlimit(100)]
    pub fn parse_for(&mut self, lexeme: &Vec<Token>) -> (r: Vec<String>)
        ensures
            *final(self) == *old(self),
            frags(r@) == for_out(*old(self), model(lexeme@)),
        decreases lexeme@.len(), 1nat,
    {
        let ghost tr = *self;
        let ghost s = model(lexeme@);
        let ghost hd = for_header(s);
        proof {
            lemma_for_header(s);
        }
        let lay = for_layout(lexeme);
        let n = lexeme.len();
        let mut stream: Vec<String> = Vec::new();
        if lay.has_init {
            let init = copy_span(lexeme, lay.init_lo, lay.init_hi);
            if base_of(lexeme, lay.init_lo) == BaseType::BASE_DATATYPE {
                let r = self.parse_declaration(&init);
                put_all(&mut stream, r);
            } else {
                let r = self.parse_assignment(&init);
                put_all(&mut stream, r);
            }
        }
        let ghost init_out = frags(stream@);
        if lay.has_cond {
            put(&mut stream, "while");
            put_texts(&mut stream, lexeme, lay.cond_lo, lay.cond_hi);
        } else {
            put(&mut stream, "loop");
        }
        let update = if lay.upd_hi <= lay.upd_lo {
            Vec::new()
        } else {
            let mut u = copy_span(lexeme, lay.upd_lo, lay.upd_hi);
            u.push(Token::new(";".to_string(), BaseType::BASE_NONE, TokenType::SEMICOLON, 0, 0));
            proof {
                assert(model(u@) =~= span_of(s, hd.upd_lo, hd.upd_hi) + seq![semicolon_view()]);
            }
            self.parse_program(&u)
        };
        let body = copy_span(lexeme, lay.body_lo, lay.body_hi);
        put(&mut stream, "{");
        let r = self.parse_program(&body);
        put_all(&mut stream, r);
        put_all(&mut stream, update);
        put(&mut stream, "}");
        assert(frags(stream@) =~= for_out(tr, s));
        stream
    }

    /// Translates an assignment `a = rhs ;` (or one ending with a comma).
    pub fn parse_assignment(&mut self, lexeme: &Vec<Token>) -> (r: Vec<String>)
        ensures
            *final(self) == *old(self),
            frags(r@) == assign_out(*old(self), model(lexeme@)),
        decreases lexeme@.len(), 1nat,
    {
        let ghost tr = *self;
        let ghost s = model(lexeme@);
        let n = lexeme.len();
        let mut stream: Vec<String> = Vec::new();
        if base_of(lexeme, 2) == BaseType::BASE_UNOP || base_of(lexeme, 3) == BaseType::BASE_UNOP
            || base_of(lexeme, 3) == BaseType::BASE_BINOP {
            put_string(&mut stream, text_of(lexeme, 0));
            put_string(&mut stream, text_of(lexeme, 1));
            let e = skip_stmt(lexeme, 2);
            let rhs = copy_span(lexeme, 2, e);
            put_all(&mut stream, parse_expr(&rhs));
        } else {
            if kind_of(lexeme, 3) != TokenType::SEMICOLON && kind_of(lexeme, 3)
                != TokenType::COMMA {
                let t = find_term(lexeme, 2);
                proof {
                    lemma_term_pos(s, 2);
                }
                let e = if t < n {
                    t + 1
                } else {
                    n
                };
                let tail = copy_span(lexeme, 2, e);
                proof {
                    lemma_span(s, 2, e as int);
                }
                let r = self.parse_program(&tail);
                put_all(&mut stream, r);
            }
            put_string(&mut stream, text_of(lexeme, 0));
            put_string(&mut stream, text_of(lexeme, 1));
            put_string(&mut stream, text_of(lexeme, 2));
            put(&mut stream, ";");
        }
        assert(frags(stream@) =~= assign_out(tr, s));
        stream
    }
}

/// Translates a token sequence at file scope.
pub fn parse_program(lexeme: &Vec<Token>) -> (r: Vec<String>)
    ensures
        frags(r@) == translate(Translator { in_block: false, in_expr: false }, model(lexeme@)),
{
    let mut tr = Translator::new();
    tr.parse_program(lexeme)
}

/// The positions that lay out a `for` statement.
struct ForLayout {
    init_lo: usize,
    init_hi: usize,
    has_init: bool,
    cond_lo: usize,
    cond_hi: usize,
    has_cond: bool,
    upd_lo: usize,
    upd_hi: usize,
    body_lo: usize,
    body_hi: usize,
}

fn for_layout(v: &Vec<Token>) -> (r: ForLayout)
    ensures
        ({
            let hd = for_header(model(v@));
            &&& r.init_lo == hd.init_lo && r.init_hi == hd.init_hi && r.has_init == hd.has_init
            &&& r.has_cond == hd.has_cond
            &&& hd.has_cond ==> r.cond_lo == hd.cond_lo && r.cond_hi == hd.cond_hi
            &&& r.upd_lo == hd.upd_lo && r.upd_hi == hd.upd_hi
            &&& r.body_lo == hd.body_lo && r.body_hi == hd.body_hi
        }),
{
    let ghost s = model(v@);
    let n = v.len();
    let open = find(v, 0, TokenType::LEFT_BRACKET);
    proof {
        lemma_find_kind(s, 0, TokenType::LEFT_BRACKET);
    }
    let p = clamp_add(open, 1, n);
    let e1 = skip_stmt(v, p);
    proof {
        lemma_stmt_end(s, p as int);
    }
    let has_init = p < e1 && e1 - p > 1;
    let h1 = if has_init {
        e1
    } else {
        clamp_add(p, 1, n)
    };
    let e2 = skip_stmt(v, e1);
    proof {
        lemma_stmt_end(s, e1 as int);
    }
    let has_cond = h1 < e2 && e2 - h1 > 1;
    let h2 = if has_cond {
        e2
    } else {
        clamp_add(h1, 1, n)
    };
    let close = find(v, h2, TokenType::RIGHT_BRACKET);
    proof {
        lemma_find_kind(s, h2 as int, TokenType::RIGHT_BRACKET);
    }
    let b0 = clamp_add(close, 1, n);
    let braced = kind_of(v, b0) == TokenType::LEFT_CBRACE;
    let body_lo = if braced {
        b0 + 1
    } else {
        b0
    };
    let body_hi = if braced {
        skip_block(v, b0 + 1)
    } else {
        skip_stmt(v, b0)
    };
    ForLayout {
        init_lo: p,
        init_hi: e1,
        has_init,
        cond_lo: h1,
        cond_hi: if has_cond {
            e2 - 1
        } else {
            0
        },
        has_cond,
        upd_lo: h2,
        upd_hi: close,
        body_lo,
        body_hi,
    }
}

} // verus!
