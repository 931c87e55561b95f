//! The ruler line: a mark for every column, `+` every fifth and `|` every
//! tenth.
use vstd::prelude::*;
use crate::text::push_char;

verus! {

/// The mark of column `i` (counted from 1).
pub open spec fn ruler_mark(i: int) -> char {
    if i % 10 == 0 {
        '|'
    } else if i % 10 == 5 {
        '+'
    } else {
        '-'
    }
}

/// The ruler for a line `width` columns wide.
pub fn ruler_text(width: u16) -> (r: String)
    ensures
        r@ == Seq::new(width as nat, |k: int| ruler_mark(k + 1)),
{
    let mut r = String::new();
    let mut i: u32 = 1;
    while i <= width as u32
        invariant
            1 <= i <= width as int + 1,
            r@ == Seq::new((i - 1) as nat, |k: int| ruler_mark(k + 1)),
        decreases width as int + 1 - i,
    {
        let c = if i % 10 == 0 { '|' } else if i % 10 == 5 { '+' } else { '-' };
        push_char(&mut r, c);
        assert(r@ =~= Seq::new(i as nat, |k: int| ruler_mark(k + 1)));
        i = i + 1;
    }
    r
}

} // verus!
