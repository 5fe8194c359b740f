//! A channel number that carries values of one type.
use vstd::prelude::*;
use std::marker::PhantomData;

verus! {

#[derive(Debug)]
pub struct Channel<T>(pub u64, pub PhantomData<T>);

impl<T> Clone for Channel<T> {
    fn clone(&self) -> (r: Self)
        ensures
            r.0 == self.0,
    {
        Channel(self.0, PhantomData)
    }
}

} // verus!
