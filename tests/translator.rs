use c_to_rust::lexeme::BaseType::{BASE_BINOP, BASE_COMMENT, BASE_DATATYPE, BASE_NONE, BASE_UNOP, BASE_VALUE};
use c_to_rust::lexeme::Token;
use c_to_rust::lexeme::TokenType::{
    COMMA, COMMENT_MULTI, IDENTIFIER, KEYWORD_DO, KEYWORD_FOR, KEYWORD_IF, KEYWORD_WHILE,
    LEFT_BRACKET, LEFT_CBRACE, NUM_FLOAT, NUM_INT, OP_ASSIGN, OP_DEC, OP_DIV, OP_EQU, OP_GT,
    OP_INC, OP_LT, OP_MINUS, OP_MOD, OP_MUL, OP_PLUS, PRIMITIVE_INT, RIGHT_BRACKET,
    RIGHT_CBRACE, SEMICOLON,
};
use c_to_rust::model::Translator;
use c_to_rust::parser::parse_program;

#[test]
fn test_parse_if_braces() {
    let tok_vector = vec![Token::new(String::from("if"), BASE_NONE, KEYWORD_IF, 0, 0),
                          Token::new(String::from("("), BASE_NONE, LEFT_BRACKET, 0, 1),
                          Token::new(String::from("a"), BASE_NONE, IDENTIFIER, 0, 2),
                          Token::new(String::from("=="), BASE_BINOP, OP_EQU, 0, 3),
                          Token::new(String::from("a"), BASE_NONE, IDENTIFIER, 0, 4),
                          Token::new(String::from(")"), BASE_NONE, RIGHT_BRACKET, 0, 5),
                          Token::new(String::from("{"), BASE_NONE, LEFT_CBRACE, 0, 6),
                          Token::new(String::from("/*Do something here*/"),
                                     BASE_COMMENT,
                                     COMMENT_MULTI,
                                     1,
                                     1),
                          Token::new(String::from("}"), BASE_NONE, RIGHT_CBRACE, 2, 7)];
    let stream = vec!["if", "a", "==", "a", "{", "/*Do something here*/\n", "}"];

    assert_eq!(stream, Translator::new().parse_if(&tok_vector));
}

#[test]
fn test_parse_if_braces_nesting() {
    let tok_vector = vec![Token::new(String::from("if"), BASE_NONE, KEYWORD_IF, 0, 0),
                          Token::new(String::from("("), BASE_NONE, LEFT_BRACKET, 0, 1),
                          Token::new(String::from("a"), BASE_NONE, IDENTIFIER, 0, 2),
                          Token::new(String::from(">"), BASE_BINOP, OP_GT, 0, 3),
                          Token::new(String::from("2"), BASE_VALUE, NUM_INT, 0, 4),
                          Token::new(String::from(")"), BASE_NONE, RIGHT_BRACKET, 0, 5),
                          Token::new(String::from("{"), BASE_NONE, LEFT_CBRACE, 0, 6),
                          Token::new(String::from("/*Do something here*/"),
                                     BASE_COMMENT,
                                     COMMENT_MULTI,
                                     1,
                                     7),
                          Token::new(String::from("if"), BASE_NONE, KEYWORD_IF, 2, 8),
                          Token::new(String::from("("), BASE_NONE, LEFT_BRACKET, 2, 9),
                          Token::new(String::from("a"), BASE_NONE, IDENTIFIER, 2, 10),
                          Token::new(String::from("<"), BASE_BINOP, OP_LT, 2, 11),
                          Token::new(String::from("4"), BASE_VALUE, NUM_INT, 2, 12),
                          Token::new(String::from(")"), BASE_NONE, RIGHT_BRACKET, 2, 13),
                          Token::new(String::from("{"), BASE_NONE, LEFT_CBRACE, 2, 14),
                          Token::new(String::from("b"), BASE_NONE, IDENTIFIER, 3, 15),
                          Token::new(String::from("="), BASE_NONE, OP_ASSIGN, 3, 16),
                          Token::new(String::from("53"), BASE_VALUE, NUM_INT, 3, 17),
                          Token::new(String::from(";"), BASE_VALUE, SEMICOLON, 3, 18),
                          Token::new(String::from("}"), BASE_NONE, RIGHT_CBRACE, 4, 19),
                          Token::new(String::from("b"), BASE_NONE, IDENTIFIER, 5, 20),
                          Token::new(String::from("="), BASE_NONE, OP_ASSIGN, 5, 21),
                          Token::new(String::from("72"), BASE_VALUE, NUM_INT, 5, 22),
                          Token::new(String::from(";"), BASE_NONE, SEMICOLON, 5, 23),
                          Token::new(String::from("}"), BASE_NONE, RIGHT_CBRACE, 6, 24)];
    let stream = vec!["if",
                      "a",
                      ">",
                      "2",
                      "{",
                      "/*Do something here*/\n",
                      "if",
                      "a",
                      "<",
                      "4",
                      "{",
                      "b",
                      "=",
                      "53",
                      ";",
                      "}",
                      "b",
                      "=",
                      "72",
                      ";",
                      "}"];

    assert_eq!(stream, Translator::new().parse_if(&tok_vector));
}

#[test]
fn test_parse_if_no_braces_nesting() {
    let tok_vector = vec![Token::new(String::from("if"), BASE_NONE, KEYWORD_IF, 0, 0),
                          Token::new(String::from("("), BASE_NONE, LEFT_BRACKET, 0, 1),
                          Token::new(String::from("a"), BASE_NONE, IDENTIFIER, 0, 2),
                          Token::new(String::from(">"), BASE_BINOP, OP_GT, 0, 3),
                          Token::new(String::from("2"), BASE_VALUE, NUM_INT, 0, 4),
                          Token::new(String::from(")"), BASE_NONE, RIGHT_BRACKET, 0, 5),
                          Token::new(String::from("if"), BASE_NONE, KEYWORD_IF, 1, 7),
                          Token::new(String::from("("), BASE_NONE, LEFT_BRACKET, 1, 8),
                          Token::new(String::from("a"), BASE_NONE, IDENTIFIER, 1, 9),
                          Token::new(String::from("<"), BASE_BINOP, OP_LT, 1, 10),
                          Token::new(String::from("4"), BASE_VALUE, NUM_INT, 1, 11),
                          Token::new(String::from(")"), BASE_NONE, RIGHT_BRACKET, 1, 12),
                          Token::new(String::from("b"), BASE_NONE, IDENTIFIER, 2, 15),
                          Token::new(String::from("="), BASE_NONE, OP_ASSIGN, 2, 16),
                          Token::new(String::from("53"), BASE_VALUE, NUM_INT, 2, 17),
                          Token::new(String::from(","), BASE_NONE, COMMA, 2, 18),
                          Token::new(String::from("b"), BASE_NONE, IDENTIFIER, 3, 20),
                          Token::new(String::from("="), BASE_NONE, OP_ASSIGN, 3, 21),
                          Token::new(String::from("72"), BASE_VALUE, NUM_INT, 3, 22),
                          Token::new(String::from(";"), BASE_NONE, SEMICOLON, 3, 23)];
    let stream = vec!["if", "a", ">", "2", "{", "if", "a", "<", "4", "{", "b", "=", "53", ";",
                      "b", "=", "72", ";", "}", "}"];

    assert_eq!(stream, Translator::new().parse_if(&tok_vector));
}

#[test]
fn test_parse_if_no_braces() {
    let tok_vector = vec![Token::new(String::from("if"), BASE_NONE, KEYWORD_IF, 0, 0),
                          Token::new(String::from("("), BASE_NONE, LEFT_BRACKET, 0, 1),
                          Token::new(String::from("a"), BASE_NONE, IDENTIFIER, 0, 2),
                          Token::new(String::from("=="), BASE_BINOP, OP_EQU, 0, 3),
                          Token::new(String::from("a"), BASE_NONE, IDENTIFIER, 0, 4),
                          Token::new(String::from(")"), BASE_NONE, RIGHT_BRACKET, 0, 5),
                          Token::new(String::from("a"), BASE_NONE, IDENTIFIER, 1, 6),
                          Token::new(String::from("="), BASE_NONE, OP_ASSIGN, 1, 7),
                          Token::new(String::from("5"), BASE_VALUE, NUM_INT, 1, 8),
                          Token::new(String::from(";"), BASE_NONE, SEMICOLON, 1, 8)];
    let stream = vec!["if", "a", "==", "a", "{", "a", "=", "5", ";", "}"];

    assert_eq!(stream, Translator::new().parse_if(&tok_vector));
}

#[test]
fn test_parse_if_no_braces_inside_braces() {
    let tok_vector = vec![Token::new(String::from("if"), BASE_NONE, KEYWORD_IF, 0, 0),
                          Token::new(String::from("("), BASE_NONE, LEFT_BRACKET, 0, 1),
                          Token::new(String::from("a"), BASE_NONE, IDENTIFIER, 0, 2),
                          Token::new(String::from(">"), BASE_BINOP, OP_GT, 0, 3),
                          Token::new(String::from("2"), BASE_VALUE, NUM_INT, 0, 4),
                          Token::new(String::from(")"), BASE_NONE, RIGHT_BRACKET, 0, 5),
                          Token::new(String::from("{"), BASE_NONE, LEFT_CBRACE, 0, 6),
                          Token::new(String::from("/*Do something here*/"),
                                     BASE_COMMENT,
                                     COMMENT_MULTI,
                                     1,
                                     7),
                          Token::new(String::from("if"), BASE_NONE, KEYWORD_IF, 2, 8),
                          Token::new(String::from("("), BASE_NONE, LEFT_BRACKET, 2, 9),
                          Token::new(String::from("a"), BASE_NONE, IDENTIFIER, 2, 10),
                          Token::new(String::from("<"), BASE_BINOP, OP_LT, 2, 11),
                          Token::new(String::from("4"), BASE_VALUE, NUM_INT, 2, 12),
                          Token::new(String::from(")"), BASE_NONE, RIGHT_BRACKET, 2, 13),
                          Token::new(String::from("b"), BASE_NONE, IDENTIFIER, 3, 15),
                          Token::new(String::from("="), BASE_NONE, OP_ASSIGN, 3, 16),
                          Token::new(String::from("53"), BASE_VALUE, NUM_INT, 3, 17),
                          Token::new(String::from(","), BASE_VALUE, COMMA, 3, 18),
                          Token::new(String::from("b"), BASE_NONE, IDENTIFIER, 5, 20),
                          Token::new(String::from("="), BASE_NONE, OP_ASSIGN, 5, 21),
                          Token::new(String::from("72"), BASE_VALUE, NUM_INT, 5, 22),
                          Token::new(String::from(";"), BASE_NONE, SEMICOLON, 5, 23),
                          Token::new(String::from("a"), BASE_NONE, IDENTIFIER, 5, 24),
                          Token::new(String::from("="), BASE_NONE, OP_ASSIGN, 5, 25),
                          Token::new(String::from("1"), BASE_VALUE, NUM_INT, 5, 26),
                          Token::new(String::from(";"), BASE_NONE, SEMICOLON, 5, 27),
                          Token::new(String::from("}"), BASE_NONE, RIGHT_CBRACE, 6, 28)];
    let stream = vec!["if",
                      "a",
                      ">",
                      "2",
                      "{",
                      "/*Do something here*/\n",
                      "if",
                      "a",
                      "<",
                      "4",
                      "{",
                      "b",
                      "=",
                      "53",
                      ";",
                      "b",
                      "=",
                      "72",
                      ";",
                      "}",
                      "a",
                      "=",
                      "1",
                      ";",
                      "}"];

    assert_eq!(stream, parse_program(&tok_vector));
}

#[test]
fn test_parse_assignment_single() {
    let tok_vector = vec![Token::new(String::from("a"), BASE_NONE, IDENTIFIER, 0, 0),
                          Token::new(String::from("="), BASE_NONE, OP_ASSIGN, 0, 1),
                          Token::new(String::from("5"), BASE_VALUE, NUM_INT, 0, 2),
                          Token::new(String::from(";"), BASE_NONE, SEMICOLON, 0, 3)];
    let stream = vec!["a", "=", "5", ";"];
    assert_eq!(stream, parse_program(&tok_vector));
}

#[test]
fn test_parse_assignment_multiple() {
    let tok_vector = vec![Token::new(String::from("a"), BASE_NONE, IDENTIFIER, 0, 0),
                          Token::new(String::from("="), BASE_NONE, OP_ASSIGN, 0, 1),
                          Token::new(String::from("b"), BASE_NONE, IDENTIFIER, 0, 2),
                          Token::new(String::from("="), BASE_NONE, OP_ASSIGN, 0, 3),
                          Token::new(String::from("c"), BASE_NONE, IDENTIFIER, 0, 4),
                          Token::new(String::from("="), BASE_NONE, OP_ASSIGN, 0, 5),
                          Token::new(String::from("d"), BASE_NONE, IDENTIFIER, 0, 6),
                          Token::new(String::from("="), BASE_NONE, OP_ASSIGN, 0, 7),
                          Token::new(String::from("5"), BASE_VALUE, NUM_INT, 0, 8),
                          Token::new(String::from(";"), BASE_NONE, SEMICOLON, 0, 9)];
    let stream = vec!["d", "=", "5", ";", "c", "=", "d", ";", "b", "=", "c", ";", "a", "=", "b",
                      ";"];
    assert_eq!(stream, parse_program(&tok_vector));
}

#[test]
fn test_parse_assignment_commas() {
    let tok_vector = vec![Token::new(String::from("a"), BASE_NONE, IDENTIFIER, 1, 5),
                          Token::new(String::from("="), BASE_NONE, OP_ASSIGN, 1, 6),
                          Token::new(String::from("1"), BASE_VALUE, NUM_INT, 1, 7),
                          Token::new(String::from(","), BASE_NONE, COMMA, 1, 8),
                          Token::new(String::from("b"), BASE_NONE, IDENTIFIER, 1, 9),
                          Token::new(String::from("="), BASE_NONE, OP_ASSIGN, 1, 10),
                          Token::new(String::from("2"), BASE_VALUE, NUM_INT, 1, 11),
                          Token::new(String::from(","), BASE_NONE, COMMA, 1, 12),
                          Token::new(String::from("c"), BASE_NONE, IDENTIFIER, 1, 13),
                          Token::new(String::from("="), BASE_NONE, OP_ASSIGN, 1, 14),
                          Token::new(String::from("3"), BASE_VALUE, NUM_INT, 1, 15),
                          Token::new(String::from(";"), BASE_NONE, SEMICOLON, 1, 16)];
    let stream = vec!["a", "=", "1", ";", "b", "=", "2", ";", "c", "=", "3", ";"];
    assert_eq!(stream, parse_program(&tok_vector));
}

#[test]
fn test_parse_assignment_binops() {
    let tok_vector = vec![Token::new(String::from("a"), BASE_NONE, IDENTIFIER, 1, 5),
                          Token::new(String::from("="), BASE_NONE, OP_ASSIGN, 1, 6),
                          Token::new(String::from("2"), BASE_VALUE, NUM_INT, 1, 7),
                          Token::new(String::from("+"), BASE_BINOP, OP_PLUS, 1, 8),
                          Token::new(String::from("3"), BASE_VALUE, NUM_INT, 1, 9),
                          Token::new(String::from("-"), BASE_BINOP, OP_MINUS, 1, 10),
                          Token::new(String::from("4"), BASE_VALUE, NUM_INT, 1, 11),
                          Token::new(String::from("/"), BASE_BINOP, OP_DIV, 1, 12),
                          Token::new(String::from("5"), BASE_VALUE, NUM_INT, 1, 13),
                          Token::new(String::from("*"), BASE_BINOP, OP_MUL, 1, 14),
                          Token::new(String::from("6.3"), BASE_VALUE, NUM_FLOAT, 1, 15),
                          Token::new(String::from("%"), BASE_BINOP, OP_MOD, 1, 16),
                          Token::new(String::from("7"), BASE_VALUE, NUM_INT, 1, 17),
                          Token::new(String::from(";"), BASE_NONE, SEMICOLON, 1, 18),];
    let stream = vec!["a", "=", "2", "+", "3", "-", "4", "/", "5", "*", "6.3", "%", "7", ";"];
    assert_eq!(stream, parse_program(&tok_vector));
}

#[test]
fn test_parse_assignment_preops() {
    let mut tok_vector = vec![Token::new(String::from("a"), BASE_NONE, IDENTIFIER, 1, 5),
                              Token::new(String::from("="), BASE_NONE, OP_ASSIGN, 1, 6),
                              Token::new(String::from("++"), BASE_UNOP, OP_INC, 1, 7),
                              Token::new(String::from("b"), BASE_NONE, IDENTIFIER, 1, 8),
                              Token::new(String::from(";"), BASE_NONE, SEMICOLON, 1, 9),];
    let mut stream = vec!["a", "=", "(", "b", "+=1",  ")", ";"];
    assert_eq!(stream, Translator::new().parse_assignment(&tok_vector));

    tok_vector = vec![Token::new(String::from("a"), BASE_NONE, IDENTIFIER, 1, 5),
                      Token::new(String::from("="), BASE_NONE, OP_ASSIGN, 1, 6),
                      Token::new(String::from("--"), BASE_UNOP, OP_DEC, 1, 7),
                      Token::new(String::from("b"), BASE_NONE, IDENTIFIER, 1, 8),
                      Token::new(String::from(";"), BASE_NONE, SEMICOLON, 1, 9),];
    stream = vec!["a", "=", "(", "b", "-=1", ")", ";"];

    assert_eq!(stream, Translator::new().parse_assignment(&tok_vector));
}

#[test]
fn test_parse_assignment_postops() {
    let mut tok_vector = vec![Token::new(String::from("a"), BASE_NONE, IDENTIFIER, 1, 5),
                              Token::new(String::from("="), BASE_NONE, OP_ASSIGN, 1, 6),
                              Token::new(String::from("b"), BASE_NONE, IDENTIFIER, 1, 8),
                              Token::new(String::from("++"), BASE_UNOP, OP_INC, 1, 7),
                              Token::new(String::from(";"), BASE_NONE, SEMICOLON, 1, 9),];
    let mut stream = vec!["a", "=", "b", ";", "b", "+=1", ";"];
    assert_eq!(stream, Translator::new().parse_assignment(&tok_vector));

    tok_vector = vec![Token::new(String::from("a"), BASE_NONE, IDENTIFIER, 1, 5),
                      Token::new(String::from("="), BASE_NONE, OP_ASSIGN, 1, 6),
                      Token::new(String::from("b"), BASE_NONE, IDENTIFIER, 1, 8),
                      Token::new(String::from("--"), BASE_UNOP, OP_DEC, 1, 7),
                      Token::new(String::from(";"), BASE_NONE, SEMICOLON, 1, 9),];
    stream = vec!["a", "=", "b", ";", "b", "-=1", ";"];

    assert_eq!(stream, Translator::new().parse_assignment(&tok_vector));
}

#[test]
fn test_parse_function_no_args() {
    let tok_vector = vec![Token::new(String::from("int"), BASE_DATATYPE, PRIMITIVE_INT, 0, 0),
                          Token::new(String::from("a"), BASE_NONE, IDENTIFIER, 0, 1),
                          Token::new(String::from("("), BASE_NONE, LEFT_BRACKET, 0, 2),
                          Token::new(String::from(")"), BASE_NONE, RIGHT_BRACKET, 0, 3),
                          Token::new(String::from("{"), BASE_NONE, LEFT_CBRACE, 0, 4),
                          Token::new(String::from("int"), BASE_DATATYPE, PRIMITIVE_INT, 1, 5),
                          Token::new(String::from("a"), BASE_NONE, IDENTIFIER, 1, 6),
                          Token::new(String::from("="), BASE_NONE, OP_ASSIGN, 1, 7),
                          Token::new(String::from("1"), BASE_VALUE, NUM_INT, 1, 8),
                          Token::new(String::from(";"), BASE_NONE, SEMICOLON, 1, 9),
                          Token::new(String::from("}"), BASE_NONE, RIGHT_CBRACE, 2, 10)];
    let stream = vec!["fn", "a", "(", ")", "->", "i32", "{", "let mut", "a", ":", "i32", "=", "1", ";", "}"];
    let mut tr = Translator { in_block: true, in_expr: false };
    assert_eq!(stream, tr.parse_program(&tok_vector));
}

#[test]
fn test_parse_while_braces() {
    let tok_vector = vec![Token::new(String::from("while"), BASE_NONE, KEYWORD_WHILE, 0, 0),
                          Token::new(String::from("("), BASE_NONE, LEFT_BRACKET, 0, 1),
                          Token::new(String::from("a"), BASE_NONE, IDENTIFIER, 0, 2),
                          Token::new(String::from("=="), BASE_BINOP, OP_EQU, 0, 3),
                          Token::new(String::from("a"), BASE_NONE, IDENTIFIER, 0, 4),
                          Token::new(String::from(")"), BASE_NONE, RIGHT_BRACKET, 0, 5),
                          Token::new(String::from("{"), BASE_NONE, LEFT_CBRACE, 0, 6),
                          Token::new(String::from("/*Do something here*/"),
                                     BASE_COMMENT,
                                     COMMENT_MULTI,
                                     1,
                                     1),
                          Token::new(String::from("}"), BASE_NONE, RIGHT_CBRACE, 2, 7)];
    let stream = vec!["while", "a", "==", "a", "{", "/*Do something here*/\n", "}"];

    assert_eq!(stream, Translator::new().parse_while(&tok_vector));
}

#[test]
fn test_parse_while_no_braces() {
    let tok_vector = vec![Token::new(String::from("while"), BASE_NONE, KEYWORD_WHILE, 0, 0),
                          Token::new(String::from("("), BASE_NONE, LEFT_BRACKET, 0, 1),
                          Token::new(String::from("a"), BASE_NONE, IDENTIFIER, 0, 2),
                          Token::new(String::from("=="), BASE_BINOP, OP_EQU, 0, 3),
                          Token::new(String::from("a"), BASE_NONE, IDENTIFIER, 0, 4),
                          Token::new(String::from(")"), BASE_NONE, RIGHT_BRACKET, 0, 5),
                          Token::new(String::from("a"), BASE_NONE, IDENTIFIER, 1, 6),
                          Token::new(String::from("="), BASE_NONE, OP_ASSIGN, 1, 7),
                          Token::new(String::from("5"), BASE_VALUE, NUM_INT, 1, 8),
                          Token::new(String::from(";"), BASE_NONE, SEMICOLON, 1, 8)];
    let stream = vec!["while", "a", "==", "a", "{", "a", "=", "5", ";", "}"];

    assert_eq!(stream, Translator::new().parse_while(&tok_vector));
}

#[test]
fn test_parse_dowhile_braces() {
    let tok_vector = vec![
        Token::new(String::from("do"), BASE_NONE, KEYWORD_DO, 0, 1),
        Token::new(String::from("{"), BASE_NONE, LEFT_CBRACE, 0, 6),
        Token::new(String::from("/*Do something here*/"),
                                     BASE_COMMENT,
                                     COMMENT_MULTI,
                                     1,
                                     1),
        Token::new(String::from("}"), BASE_NONE, RIGHT_CBRACE, 2, 7),
        Token::new(String::from("while"), BASE_NONE, KEYWORD_WHILE, 0, 0),                  
                          Token::new(String::from("("), BASE_NONE, LEFT_BRACKET, 0, 1),
                          Token::new(String::from("a"), BASE_NONE, IDENTIFIER, 0, 2),
                          Token::new(String::from("=="), BASE_BINOP, OP_EQU, 0, 3),
                          Token::new(String::from("a"), BASE_NONE, IDENTIFIER, 0, 4),
                          Token::new(String::from(")"), BASE_NONE, RIGHT_BRACKET, 0, 5),
                          Token::new(String::from(";"), BASE_NONE, SEMICOLON, 0, 8)];
    let stream = vec!["while", "{", "/*Do something here*/\n", "a", "==", "a", "}", "{", "}", ";"];

    assert_eq!(stream, Translator::new().parse_dowhile(&tok_vector));
}

#[test]
fn test_parse_for_braces() {
    let tok_vector = vec![Token::new(String::from("for"), BASE_NONE, KEYWORD_FOR, 0, 0),
                          Token::new(String::from("("), BASE_NONE, LEFT_BRACKET, 0, 1),
                          Token::new(String::from("i"), BASE_NONE, IDENTIFIER, 0, 2),
                          Token::new(String::from("="), BASE_NONE, OP_ASSIGN, 1, 7),
                          Token::new(String::from("0"), BASE_VALUE, NUM_INT, 1, 8),
                          Token::new(String::from(";"), BASE_NONE, SEMICOLON, 1, 8),
                          Token::new(String::from("i"), BASE_NONE, IDENTIFIER, 0, 2),
                          Token::new(String::from("<"), BASE_NONE, OP_LT, 1, 7),
                          Token::new(String::from("23"), BASE_VALUE, NUM_INT, 1, 8),
                          Token::new(String::from(";"), BASE_NONE, SEMICOLON, 1, 8),
                          Token::new(String::from("i"), BASE_NONE, IDENTIFIER, 0, 2),
                          Token::new(String::from("++"), BASE_UNOP, OP_INC, 0, 3),
                          Token::new(String::from(")"), BASE_NONE, RIGHT_BRACKET, 0, 5),
                          Token::new(String::from("{"), BASE_NONE, LEFT_CBRACE, 0, 6),
                          Token::new(String::from("func"), BASE_NONE, IDENTIFIER, 0, 2),
                          Token::new(String::from("("), BASE_NONE, LEFT_BRACKET, 0, 1),
                          Token::new(String::from(")"), BASE_NONE, RIGHT_BRACKET, 0, 5),
                          Token::new(String::from(";"), BASE_NONE, SEMICOLON, 1, 8),
                          Token::new(String::from("}"), BASE_NONE, RIGHT_CBRACE, 2, 7),];
    let stream = vec!["i", "=", "0", ";", "while", "i", "<", "23", "{", "func", "(", ")", ";", "i", "+=1", ";", "}"];

    assert_eq!(stream, Translator::new().parse_for(&tok_vector));
}

#[test]
fn test_parse_for_no_braces() {
    let tok_vector = vec![Token::new(String::from("for"), BASE_NONE, KEYWORD_FOR, 0, 0),
                          Token::new(String::from("("), BASE_NONE, LEFT_BRACKET, 0, 1),
                          Token::new(String::from("i"), BASE_NONE, IDENTIFIER, 0, 2),
                          Token::new(String::from("="), BASE_NONE, OP_ASSIGN, 1, 7),
                          Token::new(String::from("0"), BASE_VALUE, NUM_INT, 1, 8),
                          Token::new(String::from(";"), BASE_NONE, SEMICOLON, 1, 8),
                          Token::new(String::from("i"), BASE_NONE, IDENTIFIER, 0, 2),
                          Token::new(String::from("<"), BASE_NONE, OP_LT, 1, 7),
                          Token::new(String::from("23"), BASE_VALUE, NUM_INT, 1, 8),
                          Token::new(String::from(";"), BASE_NONE, SEMICOLON, 1, 8),
                          Token::new(String::from("i"), BASE_NONE, IDENTIFIER, 0, 2),
                          Token::new(String::from("++"), BASE_UNOP, OP_INC, 0, 3),
                          Token::new(String::from(")"), BASE_NONE, RIGHT_BRACKET, 0, 5),
                        //   Token::new(String::from("{"), BASE_NONE, LEFT_CBRACE, 0, 6),
                          Token::new(String::from("func"), BASE_NONE, IDENTIFIER, 0, 2),
                          Token::new(String::from("("), BASE_NONE, LEFT_BRACKET, 0, 1),
                          Token::new(String::from(")"), BASE_NONE, RIGHT_BRACKET, 0, 5),
                          Token::new(String::from(";"), BASE_NONE, SEMICOLON, 1, 8),];
                        //   Token::new(String::from("}"), BASE_NONE, RIGHT_CBRACE, 2, 7),];
    let stream = vec!["i", "=", "0", ";", "while", "i", "<", "23", "{", "func", "(", ")", ";", "i", "+=1", ";", "}"];

    assert_eq!(stream, Translator::new().parse_for(&tok_vector));
}