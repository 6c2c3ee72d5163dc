//! Building indentation strings.

use crate::unicode::chars_to_string;
use vstd::prelude::*;

verus! {

/// The sequence of `num` space characters.
pub open spec fn spec_indent(num: nat) -> Seq<char> {
    Seq::new(num, |i: int| ' ')
}

/// Build a string consisting of `num` spaces.
pub fn build_indent(num: usize) -> (r: String)
    ensures
        r@ == spec_indent(num as nat),
{
    let v = build_indent_chars(num);
    chars_to_string(&v)
}

/// Build a vector consisting of `num` space characters.
pub fn build_indent_chars(num: usize) -> (r: Vec<char>)
    ensures
        r@ == spec_indent(num as nat),
{
    let mut r: Vec<char> = Vec::new();
    let mut i: usize = 0;
    while i < num
        invariant
            i <= num,
            r@ =~= spec_indent(i as nat).subrange(0, i as int),
            r@.len() == i,
        decreases num - i,
    {
        r.push(' ');
        i += 1;
    }
    assert(r@ =~= spec_indent(num as nat));
    r
}

} // verus!
