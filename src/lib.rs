//! Release review for a multi-crate workspace: a changelog from the commit
//! log, and the changes of each crate's public API between two revisions.
use vstd::prelude::*;
use vstd::std_specs::ops::AddSpec;

pub mod api_diff;
pub mod commit_parse;
pub mod gitutils;
pub mod pipeline;
pub mod text;

verus! {

/// Adds two integers.
pub fn sum(a: i32, b: i32) -> (r: i32)
    requires
        i32::MIN <= a + b <= i32::MAX,
    ensures
        r == a + b,
{
    a + b
}

/// Adds two values of any type with `+`: the sum that the type's own `+`
/// specifies, on the values that it admits.
pub fn sum_generic<T: std::ops::Add<Output = T>>(a: T, b: T) -> (r: T)
    requires
        a.add_req(b),
    ensures
        T::obeys_add_spec() ==> r == a.add_spec(b),
{
    a + b
}

fn private_noop() {
}

/// An empty list.
pub fn get_vec() -> (r: Vec<i32>)
    ensures
        r@.len() == 0,
{
    private_noop();
    Vec::new()
}

} // verus!
