//! The immediate execution mode: every combinator runs at once, on the caller's stack.
use vstd::prelude::*;

verus! {

/// Immediate execution: a pending value is the value itself.
pub struct Blocking;

/// What a pending value made ready by [`Blocking::ready`] holds.
pub open spec fn ready_value<T>(value: T) -> T {
    value
}

/// `r` is a possible result of [`Blocking::map`] on `value` with `fun`.
pub open spec fn map_result<T, O, F: FnOnce(T) -> O>(value: T, fun: F, r: O) -> bool {
    fun.ensures((value,), r)
}

impl Blocking {
    pub fn ready<T>(value: T) -> (r: T)
        ensures
            r == ready_value(value),
    {
        value
    }

    pub fn map<T, O, F: FnOnce(T) -> O>(value: T, fun: F) -> (r: O)
        requires
            fun.requires((value,)),
        ensures
            map_result(value, fun, r),
    {
        fun(value)
    }

    pub fn flat_map<T, O, F: FnOnce(T) -> O>(value: T, fun: F) -> (r: O)
        requires
            fun.requires((value,)),
        ensures
            fun.ensures((value,), r),
    {
        fun(value)
    }

    /// Chains a fallible step: an error passes through, and `fun` is not called on it.
    pub fn and_then<T, O, E, F: FnOnce(T) -> Result<O, E>>(value: Result<T, E>, fun: F) -> (r:
        Result<O, E>)
        requires
            value matches Ok(v) ==> fun.requires((v,)),
        ensures
            match value {
                Ok(v) => fun.ensures((v,), r),
                Err(e) => r == Err::<O, E>(e),
            },
    {
        match value {
            Ok(v) => fun(v),
            Err(e) => Err(e),
        }
    }

    /// Chains a fallible step that is itself pending: an error passes through, and `fun` is
    /// not called on it.
    pub fn flat_and_then<T, O, E, F: FnOnce(T) -> Result<O, E>>(value: Result<T, E>, fun: F) -> (r:
        Result<O, E>)
        requires
            value matches Ok(v) ==> fun.requires((v,)),
        ensures
            match value {
                Ok(v) => fun.ensures((v,), r),
                Err(e) => r == Err::<O, E>(e),
            },
    {
        match value {
            Ok(v) => fun(v),
            Err(e) => Err(e),
        }
    }
}

/// Mapping a function over a value made ready gives exactly the results of making the
/// function's result ready.
pub proof fn lemma_map_ready<T, O, F: FnOnce(T) -> O>(x: T, f: F, r: O)
    ensures
        map_result(ready_value(x), f, r) <==> exists|y: O| f.ensures((x,), y) && r == ready_value(y),
{
    if f.ensures((x,), r) {
        assert(f.ensures((x,), r) && r == ready_value(r));
    }
}

} // verus!
