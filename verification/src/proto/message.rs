//! A received message: an owned buffer that is read as a table of type `T`.

use vstd::prelude::*;
use core::marker::PhantomData;
use crate::buffer::IpcBuffer;

verus! {

/// A received message whose bytes hold a table of type `T`. Its view is the
/// sequence of its bytes.
pub struct Message<T> {
    buf: IpcBuffer,
    marker: PhantomData<T>,
}

impl<T> View for Message<T> {
    type V = Seq<u8>;

    closed spec fn view(&self) -> Seq<u8> {
        self.buf@
    }
}

impl<T> Message<T> {
    /// The message that holds the bytes of `buf`.
    pub fn new(buf: IpcBuffer) -> (msg: Self)
        ensures
            msg@ == buf@,
    {
        Message { buf, marker: PhantomData }
    }

    /// The message without bytes, which holds no table.
    pub fn empty() -> (msg: Self)
        ensures
            msg@ == Seq::<u8>::empty(),
    {
        Message::new(IpcBuffer::new())
    }

    /// Whether the message has no bytes.
    pub fn is_empty(&self) -> (empty: bool)
        ensures
            empty == (self@.len() == 0),
    {
        self.buf.is_empty()
    }

    /// The bytes of the message.
    pub fn data(&self) -> (bytes: &[u8])
        ensures
            bytes@ == self@,
    {
        self.buf.data()
    }

    /// The number of bytes of the message.
    pub fn size(&self) -> (n: usize)
        ensures
            n == self@.len(),
    {
        self.buf.len()
    }
}

} // verus!
