//! Building the output: a vector of target-language fragments.
use vstd::prelude::*;
use crate::lexeme::{Token, model, span_of, texts};

verus! {

/// The model of an output vector: the text of each fragment.
pub open spec fn frags(v: Seq<String>) -> Seq<Seq<char>> {
    v.map_values(|x: String| x@)
}

/// Appends a fixed fragment.
pub fn put(out: &mut Vec<String>, s: &str)
    ensures
        frags(final(out)@) == frags(old(out)@).push(s@),
{
    let x = s.to_string();
    let ghost before = out@;
    out.push(x);
    assert(frags(out@) =~= frags(before).push(s@));
}

/// Appends a computed fragment.
pub fn put_string(out: &mut Vec<String>, x: String)
    ensures
        frags(final(out)@) == frags(old(out)@).push(x@),
{
    let ghost before = out@;
    let ghost xv = x@;
    out.push(x);
    assert(frags(out@) =~= frags(before).push(xv));
}

/// Appends every fragment of `other`, in order.
pub fn put_all(out: &mut Vec<String>, other: Vec<String>)
    ensures
        frags(final(out)@) == frags(old(out)@) + frags(other@),
{
    let mut other = other;
    let ghost before = out@;
    let ghost moved = other@;
    out.append(&mut other);
    assert(frags(out@) =~= frags(before) + frags(moved));
}

/// Appends the texts of the tokens from `a` up to `b`, verbatim.
pub fn put_texts(out: &mut Vec<String>, v: &Vec<Token>, a: usize, b: usize)
    ensures
        frags(final(out)@) == frags(old(out)@) + texts(span_of(model(v@), a as int, b as int)),
{
    let ghost start = frags(out@);
    if a <= b && b <= v.len() {
        let mut i: usize = a;
        while i < b
            invariant
                a <= i <= b <= v.len(),
                frags(out@) == start + texts(model(v@).subrange(a as int, i as int)),
            decreases b - i,
        {
            put_string(out, v[i].value.clone());
            i += 1;
            assert(texts(model(v@).subrange(a as int, i as int)) =~= texts(
                model(v@).subrange(a as int, (i - 1) as int),
            ).push(v@[i - 1].value@));
        }
    }
    assert(frags(out@) =~= start + texts(span_of(model(v@), a as int, b as int)));
}

} // verus!
