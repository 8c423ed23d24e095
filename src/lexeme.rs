//! Tokens as the upstream lexer hands them over.
use vstd::prelude::*;

verus! {

/// The coarse syntactic class of a token.
#[allow(non_camel_case_types)]
#[derive(Clone, Copy, Debug, PartialEq, Eq, Structural)]
pub enum BaseType {
    BASE_DATATYPE,
    BASE_UNOP,
    BASE_BINOP,
    BASE_VALUE,
    BASE_COMMENT,
    BASE_NONE,
}

/// The fine-grained tag of a token. The eight primitive types come first,
/// in the order of their numeric type codes.
#[allow(non_camel_case_types)]
#[derive(Clone, Copy, Debug, PartialEq, Eq, Structural)]
pub enum TokenType {
    PRIMITIVE_INT,
    PRIMITIVE_SHORT,
    PRIMITIVE_LONG,
    PRIMITIVE_FLOAT,
    PRIMITIVE_DOUBLE,
    PRIMITIVE_CHAR,
    PRIMITIVE_BOOL,
    PRIMITIVE_VOID,
    KEYWORD_IF,
    KEYWORD_ELSE,
    KEYWORD_WHILE,
    KEYWORD_DO,
    KEYWORD_FOR,
    KEYWORD_SWITCH,
    KEYWORD_CASE,
    KEYWORD_DEFAULT,
    MAIN,
    IDENTIFIER,
    OP_ASSIGN,
    OP_INC,
    OP_DEC,
    OP_PLUS,
    OP_MINUS,
    OP_MUL,
    OP_DIV,
    OP_MOD,
    OP_EQU,
    OP_NEQ,
    OP_LT,
    OP_GT,
    OP_LE,
    OP_GE,
    LEFT_BRACKET,
    RIGHT_BRACKET,
    LEFT_SBRACKET,
    RIGHT_SBRACKET,
    LEFT_CBRACE,
    RIGHT_CBRACE,
    SEMICOLON,
    COMMA,
    COMMENT_SINGLE,
    COMMENT_MULTI,
    NUM_INT,
    NUM_FLOAT,
    OTHER,
}

/// The numeric code of a primitive type tag (0 to 7), or -1 for any other tag.
pub open spec fn type_code_of(t: TokenType) -> int {
    match t {
        TokenType::PRIMITIVE_INT => 0,
        TokenType::PRIMITIVE_SHORT => 1,
        TokenType::PRIMITIVE_LONG => 2,
        TokenType::PRIMITIVE_FLOAT => 3,
        TokenType::PRIMITIVE_DOUBLE => 4,
        TokenType::PRIMITIVE_CHAR => 5,
        TokenType::PRIMITIVE_BOOL => 6,
        TokenType::PRIMITIVE_VOID => 7,
        _ => -1,
    }
}

impl TokenType {
    pub fn type_code(self) -> (r: i32)
        ensures
            r == type_code_of(self),
    {
        match self {
            TokenType::PRIMITIVE_INT => 0,
            TokenType::PRIMITIVE_SHORT => 1,
            TokenType::PRIMITIVE_LONG => 2,
            TokenType::PRIMITIVE_FLOAT => 3,
            TokenType::PRIMITIVE_DOUBLE => 4,
            TokenType::PRIMITIVE_CHAR => 5,
            TokenType::PRIMITIVE_BOOL => 6,
            TokenType::PRIMITIVE_VOID => 7,
            _ => -1,
        }
    }
}

/// One lexical unit: its classes, its text, and where it stood in the source.
#[derive(Debug)]
pub struct Token {
    pub value: String,
    pub base: BaseType,
    pub kind: TokenType,
    pub line: usize,
    pub column: usize,
}

/// What the translator reads of a token: its text and its two classes.
pub struct TokenView {
    pub text: Seq<char>,
    pub base: BaseType,
    pub kind: TokenType,
}

impl View for Token {
    type V = TokenView;

    open spec fn view(&self) -> TokenView {
        TokenView { text: self.value@, base: self.base, kind: self.kind }
    }
}

/// The model of a token stream.
pub open spec fn model(v: Seq<Token>) -> Seq<TokenView> {
    v.map_values(|t: Token| t@)
}

impl Token {
    pub fn new(value: String, base: BaseType, kind: TokenType, line: usize, column: usize) -> (r:
        Token)
        ensures
            r@ == (TokenView { text: value@, base, kind }),
            r.line == line,
            r.column == column,
    {
        Token { value, base, kind, line, column }
    }

    /// A token that reads as this one.
    pub fn duplicate(&self) -> (r: Token)
        ensures
            r@ == self@,
    {
        Token {
            value: self.value.clone(),
            base: self.base,
            kind: self.kind,
            line: self.line,
            column: self.column,
        }
    }
}

/// The tag at position `i`, or `OTHER` past either end.
pub open spec fn kind_at(s: Seq<TokenView>, i: int) -> TokenType {
    if 0 <= i < s.len() {
        s[i].kind
    } else {
        TokenType::OTHER
    }
}

/// The class at position `i`, or `BASE_NONE` past either end.
pub open spec fn base_at(s: Seq<TokenView>, i: int) -> BaseType {
    if 0 <= i < s.len() {
        s[i].base
    } else {
        BaseType::BASE_NONE
    }
}

/// The text at position `i`, or the empty text past either end.
pub open spec fn text_at(s: Seq<TokenView>, i: int) -> Seq<char> {
    if 0 <= i < s.len() {
        s[i].text
    } else {
        Seq::empty()
    }
}

/// The texts of a span, in order.
pub open spec fn texts(s: Seq<TokenView>) -> Seq<Seq<char>> {
    s.map_values(|t: TokenView| t.text)
}

/// The tokens from `a` up to (not including) `b`, or nothing where the bounds
/// do not describe a span of `s`.
pub open spec fn span_of(s: Seq<TokenView>, a: int, b: int) -> Seq<TokenView> {
    if 0 <= a <= b <= s.len() {
        s.subrange(a, b)
    } else {
        Seq::empty()
    }
}

pub proof fn lemma_span(s: Seq<TokenView>, a: int, b: int)
    ensures
        span_of(s, a, b).len() <= s.len(),
        s.len() == 0 ==> span_of(s, a, b).len() == 0,
        s.len() > 0 && (a >= 1 || b < s.len()) ==> span_of(s, a, b).len() < s.len(),
        0 <= a <= b <= s.len() ==> span_of(s, a, b).len() == b - a,
{
}

pub fn kind_of(v: &Vec<Token>, i: usize) -> (r: TokenType)
    ensures
        r == kind_at(model(v@), i as int),
{
    if i < v.len() {
        v[i].kind
    } else {
        TokenType::OTHER
    }
}

pub fn base_of(v: &Vec<Token>, i: usize) -> (r: BaseType)
    ensures
        r == base_at(model(v@), i as int),
{
    if i < v.len() {
        v[i].base
    } else {
        BaseType::BASE_NONE
    }
}

pub fn text_of(v: &Vec<Token>, i: usize) -> (r: String)
    ensures
        r@ == text_at(model(v@), i as int),
{
    if i < v.len() {
        v[i].value.clone()
    } else {
        String::new()
    }
}

/// `i + d`, or `n` where that passes `n`.
pub fn clamp_add(i: usize, d: usize, n: usize) -> (r: usize)
    requires
        i <= n,
    ensures
        r == (if i + d <= n {
            i + d
        } else {
            n as int
        }),
{
    if d <= n - i {
        i + d
    } else {
        n
    }
}

/// A fresh vector holding the first token of `v`, then the span from `a` to `b`.
pub fn with_head(v: &Vec<Token>, a: usize, b: usize) -> (r: Vec<Token>)
    requires
        v.len() > 0,
    ensures
        model(r@) == seq![model(v@)[0]] + span_of(model(v@), a as int, b as int),
        r.len() == 1 + span_of(model(v@), a as int, b as int).len(),
{
    let mut r: Vec<Token> = Vec::new();
    r.push(v[0].duplicate());
    let mut rest = copy_span(v, a, b);
    let ghost first = r@;
    let ghost tail = rest@;
    r.append(&mut rest);
    assert(model(r@) =~= seq![model(v@)[0]] + model(tail));
    r
}

/// A fresh vector holding the span from `a` to `b`.
pub fn copy_span(v: &Vec<Token>, a: usize, b: usize) -> (r: Vec<Token>)
    ensures
        model(r@) == span_of(model(v@), a as int, b as int),
        r.len() == span_of(model(v@), a as int, b as int).len(),
        r.len() <= v.len(),
        v.len() > 0 && (a >= 1 || b < v.len()) ==> r.len() < v.len(),
{
    proof {
        lemma_span(model(v@), a as int, b as int);
    }
    let mut r: Vec<Token> = Vec::new();
    if a <= b && b <= v.len() {
        let mut i: usize = a;
        while i < b
            invariant
                a <= i <= b <= v.len(),
                model(r@) =~= model(v@).subrange(a as int, i as int),
            decreases b - i,
        {
            let t = v[i].duplicate();
            let ghost before = r@;
            r.push(t);
            assert(model(r@) =~= model(before).push(t@));
            i += 1;
            assert(model(r@) =~= model(v@).subrange(a as int, i as int));
        }
    }
    assert(model(r@) =~= span_of(model(v@), a as int, b as int));
    r
}

} // verus!
