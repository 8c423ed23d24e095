use c_to_rust::lexeme::BaseType;
use c_to_rust::lexeme::BaseType::{BASE_BINOP, BASE_COMMENT, BASE_DATATYPE, BASE_NONE, BASE_UNOP, BASE_VALUE};
use c_to_rust::lexeme::Token;
use c_to_rust::lexeme::TokenType;
use c_to_rust::lexeme::TokenType::{
    COMMA, COMMENT_MULTI, COMMENT_SINGLE, IDENTIFIER, KEYWORD_CASE, KEYWORD_DEFAULT,
    KEYWORD_ELSE, KEYWORD_FOR, KEYWORD_IF, KEYWORD_SWITCH, KEYWORD_WHILE, LEFT_BRACKET,
    LEFT_CBRACE, LEFT_SBRACKET, MAIN, NUM_INT, OP_ASSIGN, OP_DEC, OP_INC, OP_LT, OP_PLUS,
    PRIMITIVE_CHAR, PRIMITIVE_INT, PRIMITIVE_VOID, RIGHT_BRACKET, RIGHT_CBRACE,
    RIGHT_SBRACKET, SEMICOLON,
};
use c_to_rust::model::Translator;
use c_to_rust::parser::{parse_arguments, parse_expr, parse_program};
use c_to_rust::scan::{expect_block_end, expect_stmt_end, skip_block, skip_stmt, MissingDelimiter};
use c_to_rust::types::parse_type;

fn t(text: &str, base: BaseType, kind: TokenType) -> Token {
    Token::new(String::from(text), base, kind, 0, 0)
}

fn id(text: &str) -> Token {
    t(text, BASE_NONE, IDENTIFIER)
}

fn num(text: &str) -> Token {
    t(text, BASE_VALUE, NUM_INT)
}

fn p(kind: TokenType) -> Token {
    let text = match kind {
        LEFT_BRACKET => "(",
        RIGHT_BRACKET => ")",
        LEFT_CBRACE => "{",
        RIGHT_CBRACE => "}",
        LEFT_SBRACKET => "[",
        RIGHT_SBRACKET => "]",
        SEMICOLON => ";",
        COMMA => ",",
        OP_ASSIGN => "=",
        _ => "?",
    };
    t(text, BASE_NONE, kind)
}

fn int_kw() -> Token {
    t("int", BASE_DATATYPE, PRIMITIVE_INT)
}

fn count(out: &Vec<String>, s: &str) -> usize {
    out.iter().filter(|x| x.as_str() == s).count()
}

fn while_tokens(cond: Vec<Token>) -> Vec<Token> {
    let mut v = vec![t("while", BASE_NONE, KEYWORD_WHILE), p(LEFT_BRACKET)];
    v.extend(cond);
    v.push(p(RIGHT_BRACKET));
    v.extend(vec![p(LEFT_CBRACE), id("f"), p(LEFT_BRACKET), p(RIGHT_BRACKET), p(SEMICOLON), p(RIGHT_CBRACE)]);
    v
}

fn for_tokens(cond: Vec<Token>) -> Vec<Token> {
    let mut v = vec![t("for", BASE_NONE, KEYWORD_FOR), p(LEFT_BRACKET), p(SEMICOLON)];
    v.extend(cond);
    v.push(p(SEMICOLON));
    v.push(p(RIGHT_BRACKET));
    v.extend(vec![p(LEFT_CBRACE), id("f"), p(LEFT_BRACKET), p(RIGHT_BRACKET), p(SEMICOLON), p(RIGHT_CBRACE)]);
    v
}

#[test]
fn scenario_simple_if_with_braces() {
    let toks = vec![
        t("if", BASE_NONE, KEYWORD_IF),
        p(LEFT_BRACKET),
        id("a"),
        t("==", BASE_BINOP, TokenType::OP_EQU),
        id("a"),
        p(RIGHT_BRACKET),
        p(LEFT_CBRACE),
        t("/*C*/", BASE_COMMENT, COMMENT_MULTI),
        p(RIGHT_CBRACE),
    ];
    assert_eq!(parse_program(&toks), vec!["if", "a", "==", "a", "{", "/*C*/\n", "}"]);
}

#[test]
fn scenario_classic_for_loop_through_dispatcher() {
    let toks = vec![
        t("for", BASE_NONE, KEYWORD_FOR),
        p(LEFT_BRACKET),
        id("i"),
        p(OP_ASSIGN),
        num("0"),
        p(SEMICOLON),
        id("i"),
        t("<", BASE_BINOP, OP_LT),
        num("23"),
        p(SEMICOLON),
        id("i"),
        t("++", BASE_UNOP, OP_INC),
        p(RIGHT_BRACKET),
        p(LEFT_CBRACE),
        id("func"),
        p(LEFT_BRACKET),
        p(RIGHT_BRACKET),
        p(SEMICOLON),
        p(RIGHT_CBRACE),
    ];
    assert_eq!(
        parse_program(&toks),
        vec!["i", "=", "0", ";", "while", "i", "<", "23", "{", "func", "(", ")", ";", "i", "+=1", ";", "}"]
    );
}

#[test]
fn same_input_same_output() {
    let toks = vec![id("a"), p(OP_ASSIGN), id("b"), t("++", BASE_UNOP, OP_INC), p(SEMICOLON)];
    assert_eq!(parse_program(&toks), parse_program(&toks));
    let mut tr = Translator { in_block: true, in_expr: false };
    let first = tr.parse_program(&toks);
    let second = tr.parse_program(&toks);
    assert_eq!(first, second);
}

#[test]
fn flags_are_restored_after_a_function() {
    let toks = vec![
        int_kw(),
        id("f"),
        p(LEFT_BRACKET),
        p(RIGHT_BRACKET),
        p(LEFT_CBRACE),
        int_kw(),
        id("x"),
        p(SEMICOLON),
        p(RIGHT_CBRACE),
        int_kw(),
        id("y"),
        p(SEMICOLON),
    ];
    let mut tr = Translator::new();
    let out = tr.parse_program(&toks);
    assert_eq!(tr, Translator { in_block: false, in_expr: false });
    // the local inside the function is a `let mut`, the global after it is `static`
    assert_eq!(
        out,
        vec!["fn", "f", "(", ")", "->", "i32", "{", "let mut", "x", ":", "i32", ";", "}", "static", "y", ":", "i32", ";"]
    );
    let mut inner = Translator { in_block: true, in_expr: true };
    inner.parse_program(&toks);
    assert_eq!(inner, Translator { in_block: true, in_expr: true });
}

#[test]
fn braces_balance_in_nested_constructs() {
    let toks = vec![
        t("while", BASE_NONE, KEYWORD_WHILE),
        p(LEFT_BRACKET),
        id("a"),
        p(RIGHT_BRACKET),
        p(LEFT_CBRACE),
        t("if", BASE_NONE, KEYWORD_IF),
        p(LEFT_BRACKET),
        id("b"),
        p(RIGHT_BRACKET),
        id("c"),
        p(OP_ASSIGN),
        num("1"),
        p(SEMICOLON),
        t("else", BASE_NONE, KEYWORD_ELSE),
        id("c"),
        p(OP_ASSIGN),
        num("2"),
        p(SEMICOLON),
        p(RIGHT_CBRACE),
    ];
    let out = parse_program(&toks);
    assert_eq!(count(&out, "{"), 3);
    assert_eq!(count(&out, "}"), 3);
}

#[test]
fn type_codes_map_totally() {
    let names = ["i32", "i16", "i64", "f32", "f64", "char", "bool", "void"];
    for code in 0..8 {
        assert_eq!(parse_type(code), Some(names[code as usize].to_string()));
    }
    assert_eq!(parse_type(8), None);
    assert_eq!(parse_type(-1), None);
    assert_eq!(parse_type(i32::MAX), None);
}

#[test]
fn declaration_storage_follows_scope() {
    let toks = vec![int_kw(), id("a"), p(OP_ASSIGN), num("1"), p(COMMA), id("b"), p(SEMICOLON)];
    assert_eq!(
        parse_program(&toks),
        vec!["static", "a", ":", "i32", "=", "1", ";", "static", "b", ":", "i32", ";"]
    );
    let mut tr = Translator { in_block: true, in_expr: false };
    assert_eq!(
        tr.parse_program(&toks),
        vec!["let mut", "a", ":", "i32", "=", "1", ";", "let mut", "b", ":", "i32", ";"]
    );
}

#[test]
fn comment_passes_through() {
    let toks = vec![t("// note", BASE_COMMENT, COMMENT_SINGLE)];
    assert_eq!(parse_program(&toks), vec!["// note\n"]);
}

#[test]
fn while_and_for_without_init_agree() {
    let cond = || vec![id("i"), t("<", BASE_BINOP, OP_LT), num("3")];
    let w = parse_program(&while_tokens(cond()));
    let f = parse_program(&for_tokens(cond()));
    assert_eq!(w, f);
    assert_eq!(w, vec!["while", "i", "<", "3", "{", "f", "(", ")", ";", "}"]);
}

#[test]
fn empty_conditions_give_loop() {
    let w = parse_program(&while_tokens(vec![]));
    let f = parse_program(&for_tokens(vec![]));
    assert_eq!(w, vec!["loop", "{", "f", "(", ")", ";", "}"]);
    assert_eq!(w, f);
}

#[test]
fn empty_input_gives_nothing() {
    let toks: Vec<Token> = Vec::new();
    assert!(parse_program(&toks).is_empty());
}

#[test]
fn switch_with_default() {
    let toks = vec![
        t("switch", BASE_NONE, KEYWORD_SWITCH),
        p(LEFT_BRACKET),
        id("x"),
        p(RIGHT_BRACKET),
        p(LEFT_CBRACE),
        t("case", BASE_NONE, KEYWORD_CASE),
        num("1"),
        t(":", BASE_NONE, TokenType::OTHER),
        id("a"),
        p(OP_ASSIGN),
        num("1"),
        p(SEMICOLON),
        t("default", BASE_NONE, KEYWORD_DEFAULT),
        t(":", BASE_NONE, TokenType::OTHER),
        id("b"),
        p(OP_ASSIGN),
        num("2"),
        p(SEMICOLON),
        p(RIGHT_CBRACE),
    ];
    assert_eq!(
        parse_program(&toks),
        vec!["match", "x", "{", "1", "=>", "{", "a", "=", "1", ";", "}", "_", "=>", "{", "b", "=", "2", ";", "}", "}"]
    );
}

#[test]
fn switch_without_default_gets_a_catch_all() {
    let toks = vec![
        t("switch", BASE_NONE, KEYWORD_SWITCH),
        p(LEFT_BRACKET),
        id("x"),
        p(RIGHT_BRACKET),
        p(LEFT_CBRACE),
        t("case", BASE_NONE, KEYWORD_CASE),
        num("7"),
        t(":", BASE_NONE, TokenType::OTHER),
        p(LEFT_CBRACE),
        id("a"),
        p(OP_ASSIGN),
        num("1"),
        p(SEMICOLON),
        p(RIGHT_CBRACE),
        p(RIGHT_CBRACE),
    ];
    assert_eq!(
        parse_program(&toks),
        vec!["match", "x", "{", "7", "=>", "{", "a", "=", "1", ";", "}", "_", "=>", "{", "}", "}"]
    );
}

#[test]
fn array_with_initialiser() {
    let toks = vec![
        int_kw(),
        id("a"),
        p(LEFT_SBRACKET),
        num("3"),
        p(RIGHT_SBRACKET),
        p(OP_ASSIGN),
        p(LEFT_CBRACE),
        num("1"),
        p(COMMA),
        num("2"),
        p(COMMA),
        num("3"),
        p(RIGHT_CBRACE),
        p(SEMICOLON),
    ];
    assert_eq!(
        parse_program(&toks),
        vec!["let mut", "a", ":[i32;3]", "=", "[", "1", ",", "2", ",", "3", "];"]
    );
}

#[test]
fn array_followed_by_more_names() {
    let toks = vec![
        int_kw(),
        id("a"),
        p(LEFT_SBRACKET),
        num("2"),
        p(RIGHT_SBRACKET),
        p(COMMA),
        id("b"),
        p(SEMICOLON),
    ];
    assert_eq!(
        parse_program(&toks),
        vec!["let mut", "a", ":[i32;2]", ";", "static", "b", ":", "i32", ";"]
    );
}

#[test]
fn array_after_a_scalar_name() {
    let toks = vec![
        int_kw(),
        id("x"),
        p(COMMA),
        id("y"),
        p(LEFT_SBRACKET),
        num("2"),
        p(RIGHT_SBRACKET),
        p(SEMICOLON),
    ];
    assert_eq!(
        parse_program(&toks),
        vec!["let mut", "y", ":[i32;2]", ";", "static", "x", ":", "i32", ";"]
    );
}

#[test]
fn main_with_parameters_binds_argv_and_argc() {
    let toks = vec![
        int_kw(),
        t("main", BASE_NONE, MAIN),
        p(LEFT_BRACKET),
        int_kw(),
        id("argc"),
        p(RIGHT_BRACKET),
        p(LEFT_CBRACE),
        p(RIGHT_CBRACE),
    ];
    assert_eq!(
        parse_program(&toks),
        vec!["fn", "main", "(", ")", "{", "let mut argv = env::args();", "let mut argc = argv.len();", "}"]
    );
}

#[test]
fn function_with_parameters_and_void_return() {
    let toks = vec![
        t("void", BASE_DATATYPE, PRIMITIVE_VOID),
        id("g"),
        p(LEFT_BRACKET),
        int_kw(),
        id("a"),
        p(COMMA),
        t("char", BASE_DATATYPE, PRIMITIVE_CHAR),
        id("c"),
        p(RIGHT_BRACKET),
        p(LEFT_CBRACE),
        p(RIGHT_CBRACE),
    ];
    assert_eq!(
        parse_program(&toks),
        vec!["fn", "g", "(", "a", ":", "i32", ",", "c", ":", "char", ")", "{", "}"]
    );
}

#[test]
fn arguments_translate_pairwise() {
    let toks = vec![int_kw(), id("a"), p(COMMA), t("char", BASE_DATATYPE, PRIMITIVE_CHAR), id("c")];
    assert_eq!(parse_arguments(&toks), vec!["a", ":", "i32", ",", "c", ":", "char"]);
}

#[test]
fn unknown_declared_type() {
    let toks = vec![t("thing", BASE_DATATYPE, TokenType::OTHER), id("a"), p(SEMICOLON)];
    assert_eq!(parse_program(&toks), vec!["static", "a", ":", "UNKNOWN_TYPE", ";"]);
}

#[test]
fn else_and_else_if_chains() {
    let toks = vec![
        t("if", BASE_NONE, KEYWORD_IF),
        p(LEFT_BRACKET),
        id("a"),
        p(RIGHT_BRACKET),
        id("b"),
        p(OP_ASSIGN),
        num("1"),
        p(SEMICOLON),
        t("else", BASE_NONE, KEYWORD_ELSE),
        t("if", BASE_NONE, KEYWORD_IF),
        p(LEFT_BRACKET),
        id("c"),
        p(RIGHT_BRACKET),
        p(LEFT_CBRACE),
        id("b"),
        p(OP_ASSIGN),
        num("2"),
        p(SEMICOLON),
        id("d"),
        p(OP_ASSIGN),
        num("4"),
        p(SEMICOLON),
        p(RIGHT_CBRACE),
        t("else", BASE_NONE, KEYWORD_ELSE),
        id("b"),
        p(OP_ASSIGN),
        num("3"),
        p(SEMICOLON),
    ];
    assert_eq!(
        parse_program(&toks),
        vec![
            "if", "a", "{", "b", "=", "1", ";", "}", "else", "if", "c", "{", "b", "=", "2", ";", "d", "=", "4",
            ";", "}", "else", "{", "b", "=", "3", ";", "}"
        ]
    );
}

#[test]
fn postfix_statement_and_expression_mode() {
    let toks = vec![id("i"), t("--", BASE_UNOP, OP_DEC), p(SEMICOLON)];
    assert_eq!(parse_program(&toks), vec!["i", "-=1", ";"]);
    let mut tr = Translator { in_block: false, in_expr: true };
    assert_eq!(tr.parse_program(&toks), vec![";"]);
}

#[test]
fn prefix_statement() {
    let toks = vec![t("++", BASE_UNOP, OP_INC), id("i"), p(SEMICOLON)];
    assert_eq!(parse_program(&toks), vec!["i", "+=1", ";"]);
}

#[test]
fn expression_defers_every_postfix_update() {
    let toks = vec![
        id("a"),
        t("+", BASE_BINOP, OP_PLUS),
        id("b"),
        t("++", BASE_UNOP, OP_INC),
        t("+", BASE_BINOP, OP_PLUS),
        id("c"),
        t("--", BASE_UNOP, OP_DEC),
        p(SEMICOLON),
    ];
    assert_eq!(
        parse_expr(&toks),
        vec!["a", "+", "b", "+", "c", ";", "b", "+=1", ";", "c", "-=1", ";"]
    );
}

#[test]
fn call_passes_through() {
    let toks = vec![id("f"), p(LEFT_BRACKET), id("x"), p(COMMA), num("2"), p(RIGHT_BRACKET), p(SEMICOLON)];
    assert_eq!(parse_program(&toks), vec!["f", "(", "x", ",", "2", ")", ";"]);
}

#[test]
fn scanners_stop_at_the_end() {
    let toks = vec![id("a"), p(LEFT_CBRACE), id("b"), p(RIGHT_CBRACE), p(RIGHT_CBRACE), p(SEMICOLON)];
    assert_eq!(skip_stmt(&toks, 0), 6);
    assert_eq!(skip_stmt(&toks, 6), 6);
    assert_eq!(skip_block(&toks, 0), 5);
    assert_eq!(skip_block(&toks, 2), 4);
    let open = vec![id("a"), p(LEFT_CBRACE)];
    assert_eq!(skip_block(&open, 0), 2);
    assert_eq!(skip_stmt(&open, 0), 2);
}

#[test]
fn braced_else_is_wrapped_once() {
    let toks = vec![
        t("if", BASE_NONE, KEYWORD_IF),
        p(LEFT_BRACKET),
        id("a"),
        p(RIGHT_BRACKET),
        id("b"),
        p(OP_ASSIGN),
        num("1"),
        p(SEMICOLON),
        t("else", BASE_NONE, KEYWORD_ELSE),
        p(LEFT_CBRACE),
        id("b"),
        p(OP_ASSIGN),
        num("2"),
        p(SEMICOLON),
        p(RIGHT_CBRACE),
    ];
    assert_eq!(
        parse_program(&toks),
        vec!["if", "a", "{", "b", "=", "1", ";", "}", "else", "{", "b", "=", "2", ";", "}"]
    );
    let empty_else = vec![t("else", BASE_NONE, KEYWORD_ELSE), p(LEFT_CBRACE), p(RIGHT_CBRACE)];
    assert_eq!(parse_program(&empty_else), vec!["else", "{", "}"]);
}

#[test]
fn braced_else_inside_a_loop_keeps_braces_balanced() {
    let toks = vec![
        t("while", BASE_NONE, KEYWORD_WHILE),
        p(LEFT_BRACKET),
        id("c"),
        p(RIGHT_BRACKET),
        p(LEFT_CBRACE),
        t("if", BASE_NONE, KEYWORD_IF),
        p(LEFT_BRACKET),
        id("d"),
        p(RIGHT_BRACKET),
        p(SEMICOLON),
        t("else", BASE_NONE, KEYWORD_ELSE),
        p(LEFT_CBRACE),
        p(RIGHT_CBRACE),
        p(RIGHT_CBRACE),
    ];
    let out = parse_program(&toks);
    assert_eq!(out, vec!["while", "c", "{", "if", "d", "{", ";", "}", "else", "{", "}", "}"]);
    assert_eq!(count(&out, "{"), count(&out, "}"));
}

#[test]
fn missing_delimiters_are_reported_at_the_last_token() {
    let toks = vec![
        Token::new(String::from("a"), BASE_NONE, IDENTIFIER, 3, 1),
        Token::new(String::from("{"), BASE_NONE, LEFT_CBRACE, 3, 3),
        Token::new(String::from("b"), BASE_NONE, IDENTIFIER, 4, 7),
    ];
    assert_eq!(expect_stmt_end(&toks, 0), Err(MissingDelimiter { line: 4, column: 7 }));
    assert_eq!(expect_block_end(&toks, 2), Err(MissingDelimiter { line: 4, column: 7 }));
    let done = vec![id("a"), p(LEFT_CBRACE), p(RIGHT_CBRACE), p(RIGHT_CBRACE), p(SEMICOLON)];
    assert_eq!(expect_stmt_end(&done, 0), Ok(5));
    assert_eq!(expect_block_end(&done, 0), Ok(4));
    let empty: Vec<Token> = Vec::new();
    assert_eq!(expect_stmt_end(&empty, 0), Err(MissingDelimiter { line: 0, column: 0 }));
}

#[test]
fn while_and_for_agree_in_a_program() {
    let cond = || vec![id("i"), t("<", BASE_BINOP, OP_LT), num("3")];
    let tail = || {
        vec![
            t("if", BASE_NONE, KEYWORD_IF),
            p(LEFT_BRACKET),
            id("d"),
            p(RIGHT_BRACKET),
            id("x"),
            p(OP_ASSIGN),
            num("1"),
            p(SEMICOLON),
            id("y"),
            p(OP_ASSIGN),
            num("2"),
            p(SEMICOLON),
        ]
    };
    let mut w = vec![t("while", BASE_NONE, KEYWORD_WHILE), p(LEFT_BRACKET)];
    w.extend(cond());
    w.push(p(RIGHT_BRACKET));
    w.extend(tail());
    let mut f = vec![t("for", BASE_NONE, KEYWORD_FOR), p(LEFT_BRACKET), p(SEMICOLON)];
    f.extend(cond());
    f.push(p(SEMICOLON));
    f.push(p(RIGHT_BRACKET));
    f.extend(tail());
    let out = parse_program(&w);
    assert_eq!(out, parse_program(&f));
    assert_eq!(
        out,
        vec!["while", "i", "<", "3", "{", "if", "d", "{", "x", "=", "1", ";", "}", "}", "y", "=", "2", ";"]
    );
}
