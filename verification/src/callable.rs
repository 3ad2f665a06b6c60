use vstd::prelude::*;

use crate::value::Value;

verus! {

/// A value that a program can call.
pub trait Callable<N> {
    /// Calls the value with `arguments`; by default nothing happens.
    fn call(&self, arguments: Vec<Value<N>>) {
    }
}

} // verus!
