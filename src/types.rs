//! The numeric type codes of the source language and their target names.
use vstd::prelude::*;

verus! {

/// The code of `void`, whose return type is left out of a signature.
pub const VOID_CODE: i32 = 7;

/// The target type name of a type code, or nothing for a code outside `0..=7`.
pub open spec fn rust_type(code: int) -> Option<Seq<char>> {
    if code == 0 {
        Some("i32"@)
    } else if code == 1 {
        Some("i16"@)
    } else if code == 2 {
        Some("i64"@)
    } else if code == 3 {
        Some("f32"@)
    } else if code == 4 {
        Some("f64"@)
    } else if code == 5 {
        Some("char"@)
    } else if code == 6 {
        Some("bool"@)
    } else if code == 7 {
        Some("void"@)
    } else {
        None
    }
}

/// The name written for a declared type: its target name, or `UNKNOWN_TYPE`.
pub open spec fn declared_type(code: int) -> Seq<char> {
    match rust_type(code) {
        Some(t) => t,
        None => "UNKNOWN_TYPE"@,
    }
}

/// Maps a type code to its target type name.
pub fn parse_type(c_type: i32) -> (r: Option<String>)
    ensures
        r is Some <==> 0 <= c_type <= 7,
        r is Some ==> r->0@.len() > 0,
        r is Some ==> rust_type(c_type as int) == Some(r->0@),
        r is None ==> rust_type(c_type as int) is None,
{
    proof {
        reveal_strlit("i32");
        reveal_strlit("i16");
        reveal_strlit("i64");
        reveal_strlit("f32");
        reveal_strlit("f64");
        reveal_strlit("char");
        reveal_strlit("bool");
        reveal_strlit("void");
    }
    match c_type {
        0 => Some("i32".to_string()),
        1 => Some("i16".to_string()),
        2 => Some("i64".to_string()),
        3 => Some("f32".to_string()),
        4 => Some("f64".to_string()),
        5 => Some("char".to_string()),
        6 => Some("bool".to_string()),
        7 => Some("void".to_string()),
        _ => None,
    }
}

/// The name written for a declared type of code `c_type`.
pub fn declared_type_of(c_type: i32) -> (r: String)
    ensures
        r@ == declared_type(c_type as int),
{
    match parse_type(c_type) {
        Some(t) => t,
        None => "UNKNOWN_TYPE".to_string(),
    }
}

} // verus!
