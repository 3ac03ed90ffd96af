//! Building arrays too large for the stack.
use vstd::prelude::*;

verus! {

/// `<Box<[T; N]> as TryFrom<Vec<T>>>::try_from`: the vector's elements as a
/// boxed array when the length is `N`, the vector back otherwise.
#[verifier::external_body]
fn boxed_array_from_vec<T, const N: usize>(v: Vec<T>) -> (res: Result<Box<[T; N]>, Vec<T>>)
    ensures
        res is Ok == (v@.len() == N),
        res matches Ok(a) ==> a@ == v@,
{
    v.try_into()
}

/// A boxed array of `SIZE` elements, each made by one call of `init_fn`, in
/// order.  The elements never sit on the stack all at once.
pub fn create_large_array<T, const SIZE: usize>(init_fn: impl Fn() -> T) -> (a: Box<[T; SIZE]>)
    requires
        call_requires(init_fn, ()),
        forall|x: T| #[trigger] call_ensures(init_fn, (), x) ==> call_requires(init_fn, ()),
    ensures
        a@.len() == SIZE,
        forall|i: int| 0 <= i < SIZE ==> call_ensures(init_fn, (), #[trigger] a@[i]),
{
    let mut vec: Vec<T> = Vec::new();
    while vec.len() < SIZE
        invariant
            vec@.len() <= SIZE,
            call_requires(init_fn, ()),
            forall|x: T| #[trigger] call_ensures(init_fn, (), x) ==> call_requires(init_fn, ()),
            forall|i: int| 0 <= i < vec@.len() ==> call_ensures(init_fn, (), #[trigger] vec@[i]),
        decreases SIZE - vec@.len(),
    {
        let x = init_fn();
        vec.push(x);
    }
    match boxed_array_from_vec(vec) {
        Ok(a) => a,
        Err(_) => vstd::pervasive::unreached(),
    }
}

} // verus!
