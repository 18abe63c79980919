//! The lines printed by a demonstration of macros.

use vstd::prelude::*;
use crate::text::{push_signed_decimal, push_str, signed_decimal};

verus! {

/// The items of a list in decimal, separated by `", "`.
pub open spec fn joined_decimals(v: Seq<i32>) -> Seq<char>
    decreases v.len(),
{
    if v.len() == 0 {
        seq![]
    } else if v.len() == 1 {
        signed_decimal(v[0] as int)
    } else {
        joined_decimals(v.drop_last()) + ", "@ + signed_decimal(v.last() as int)
    }
}

/// `{:?}` of a list of integers: `[1, 2, 3]`.
pub open spec fn debug_list(v: Seq<i32>) -> Seq<char> {
    "["@ + joined_decimals(v) + "]"@
}

/// Writes a list of integers as `{:?}` does.
pub fn format_list(v: &Vec<i32>) -> (r: String)
    ensures
        r@ == debug_list(v@),
{
    let mut s = String::from_str("[");
    let ghost open_ = s@;
    let mut i: usize = 0;
    while i < v.len()
        invariant
            i <= v@.len(),
            open_ == "["@,
            s@ == open_ + joined_decimals(v@.subrange(0, i as int)),
        decreases v@.len() - i,
    {
        let ghost pre = v@.subrange(0, i as int);
        assert(v@.subrange(0, i + 1).drop_last() =~= pre);
        if i > 0 {
            push_str(&mut s, ", ");
        }
        push_signed_decimal(&mut s, v[i] as i64);
        i = i + 1;
        assert(s@ =~= open_ + joined_decimals(v@.subrange(0, i as int)));
    }
    assert(v@.subrange(0, v@.len() as int) =~= v@);
    push_str(&mut s, "]");
    s
}

/// The line the `say_hello!` macro prints.
pub fn say_hello() -> (r: String)
    ensures
        r@ == "Hello from macro!"@,
{
    String::from_str("Hello from macro!")
}

/// The line that shows a vector built with `vec!`.
pub fn vec_macro_example() -> (r: String)
    ensures
        r@ == "Vector: "@ + debug_list(seq![1i32, 2i32, 3i32]),
{
    let v: Vec<i32> = vec![1, 2, 3];
    let mut s = String::from_str("Vector: ");
    let l = format_list(&v);
    assert(v@ =~= seq![1i32, 2i32, 3i32]);
    push_str(&mut s, l.as_str());
    s
}

/// The line printed with `println!`.
pub fn println_macro_example() -> (r: String)
    ensures
        r@ == "This is println! macro from std"@,
{
    String::from_str("This is println! macro from std")
}

/// The lines of the demonstration, in order.
pub fn run() -> (r: Vec<String>)
    ensures
        r@.len() == 3,
        r@[0]@ == "Hello from macro!"@,
        r@[1]@ == "Vector: "@ + debug_list(seq![1i32, 2i32, 3i32]),
        r@[2]@ == "This is println! macro from std"@,
{
    let mut r: Vec<String> = Vec::new();
    r.push(say_hello());
    r.push(vec_macro_example());
    r.push(println_macro_example());
    r
}

} // verus!
