//! Closure demonstrations: higher-order functions whose contracts
//! speak about the preconditions and postconditions of the function
//! values they are handed.

use vstd::prelude::*;

verus! {

/// An optional value, used to demonstrate `FnOnce` bounds.
pub enum MyOption<T> {
    Present(T),
    Missing,
}

impl<T> MyOption<T> {
    /// Returns the held value, or the result of calling `f` once when
    /// no value is held.
    pub fn unwrap_or_else<F: FnOnce() -> T>(self, f: F) -> (r: T)
        requires
            self matches MyOption::Missing ==> call_requires(f, ()),
        ensures
            match self {
                MyOption::Present(x) => r == x,
                MyOption::Missing => call_ensures(f, (), r),
            },
    {
        match self {
            MyOption::Present(x) => x,
            MyOption::Missing => f(),
        }
    }
}

/// Applies `map_fn` to every element of `list`, in order, and returns
/// the results in the same order.
pub fn map<V, U, F: FnMut(V) -> U>(list: Vec<V>, mut map_fn: F) -> (out: Vec<U>)
    requires
        forall|k: int| 0 <= k < list@.len() ==> call_requires(map_fn, (#[trigger] list@[k],)),
    ensures
        out@.len() == list@.len(),
        forall|k: int|
            0 <= k < list@.len() ==> call_ensures(map_fn, (list@[k],), #[trigger] out@[k]),
{
    let ghost orig = list@;
    let ghost f0 = map_fn;
    let mut list = list;
    let mut out: Vec<U> = Vec::new();
    while list.len() > 0
        invariant
            map_fn == f0,
            out@.len() + list@.len() == orig.len(),
            list@ =~= orig.skip(out@.len() as int),
            forall|k: int| 0 <= k < orig.len() ==> call_requires(f0, (#[trigger] orig[k],)),
            forall|k: int| 0 <= k < out@.len() ==> call_ensures(f0, (orig[k],), #[trigger] out@[k]),
        decreases list@.len(),
    {
        let ghost done = out@.len() as int;
        let ghost rest = list@;
        let v = list.remove(0);
        proof {
            assert(v == orig[done]);
            assert(list@ =~= rest.drop_first());
            assert(list@ =~= orig.skip(done + 1));
        }
        out.push(map_fn(v));
    }
    out
}

/// Calls `my_fn` on three sample values, demonstrating that an `Fn`
/// closure can be invoked repeatedly.
pub fn requires_fn<F: Fn(i32)>(my_fn: F)
    requires
        call_requires(my_fn, (1i32,)),
        call_requires(my_fn, (2i32,)),
        call_requires(my_fn, (3i32,)),
{
    my_fn(1);
    my_fn(2);
    my_fn(3);
}

} // verus!
