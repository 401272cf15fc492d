use vstd::prelude::*;

verus! {

/// Adds a local constant and the result of `stack_and_heap` to `b`.
pub fn stack_only(b: i32) -> (r: i32)
    requires
        b + 15 <= i32::MAX,
    ensures
        r == b + 15,
{
    let c: i32 = 3;
    b + c + stack_and_heap()
}

/// Adds a stack value to a boxed value: always `12`.
pub fn stack_and_heap() -> (r: i32)
    ensures
        r == 12,
{
    let d: i32 = 5;
    let e = Box::new(7i32);
    d + *e
}

} // verus!
