//! Channel shapes of the message types shared by server and client.
pub mod generic;

use vstd::prelude::*;
use std::marker::PhantomData;
use crate::generic::Channel;

verus! {

#[derive(Debug)]
pub struct ParallelStream<T>(Channel, PhantomData<T>);

impl<T> ParallelStream<T> {
    /// The channel this refers to.
    pub closed spec fn channel(&self) -> Channel {
        self.0
    }
}

impl<T> Clone for ParallelStream<T> {
    fn clone(&self) -> (r: Self)
        ensures
            r.channel() == self.channel(),
    {
        ParallelStream(self.0, PhantomData)
    }
}

impl<T> Copy for ParallelStream<T> {

}

#[derive(Debug)]
pub struct AntiStream<T>(Channel, PhantomData<T>);

impl<T> AntiStream<T> {
    /// The channel this refers to.
    pub closed spec fn channel(&self) -> Channel {
        self.0
    }
}

impl<T> Clone for AntiStream<T> {
    fn clone(&self) -> (r: Self)
        ensures
            r.channel() == self.channel(),
    {
        AntiStream(self.0, PhantomData)
    }
}

impl<T> Copy for AntiStream<T> {

}

#[derive(Debug)]
pub struct ParallelFuture<T>(Channel, PhantomData<T>);

impl<T> ParallelFuture<T> {
    /// The channel this refers to.
    pub closed spec fn channel(&self) -> Channel {
        self.0
    }
}

impl<T> Clone for ParallelFuture<T> {
    fn clone(&self) -> (r: Self)
        ensures
            r.channel() == self.channel(),
    {
        ParallelFuture(self.0, PhantomData)
    }
}

impl<T> Copy for ParallelFuture<T> {

}

#[derive(Debug)]
pub struct AntiFuture<T>(Channel, PhantomData<T>);

impl<T> AntiFuture<T> {
    /// The channel this refers to.
    pub closed spec fn channel(&self) -> Channel {
        self.0
    }
}

impl<T> Clone for AntiFuture<T> {
    fn clone(&self) -> (r: Self)
        ensures
            r.channel() == self.channel(),
    {
        AntiFuture(self.0, PhantomData)
    }
}

impl<T> Copy for AntiFuture<T> {

}

#[derive(Debug)]
pub struct CancellableStream<T> {
    pub input: ParallelStream<T>,
    pub cancel: AntiFuture<()>,
}

impl<T> Clone for CancellableStream<T> {
    fn clone(&self) -> (r: Self)
        ensures
            r.input.channel() == self.input.channel(),
            r.cancel.channel() == self.cancel.channel(),
    {
        CancellableStream { input: self.input.clone(), cancel: self.cancel.clone() }
    }
}

impl<T> Copy for CancellableStream<T> {

}

pub struct FileUpload {
    pub input: ParallelStream<std::vec::Vec<u8>>,
}

} // verus!
