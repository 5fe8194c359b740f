//! Wire forms of the standard containers: each is its standard counterpart,
//! carried as it is, whose items are sent and received in their own wire form.
use vstd::prelude::*;

verus! {

#[derive(Debug)]
pub struct Option<T>(pub core::option::Option<T>);

#[derive(Debug)]
pub struct Vec<T>(pub std::vec::Vec<T>);

#[derive(Debug)]
pub struct Box<T>(pub std::boxed::Box<T>);

#[derive(Debug)]
pub struct Result<T, E>(pub core::result::Result<T, E>);

/// A value sent and received as it is.
#[derive(Debug)]
pub struct Primitive<T>(pub T);

} // verus!
