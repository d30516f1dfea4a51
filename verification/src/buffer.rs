//! The owning byte buffer that carries a message.

use vstd::prelude::*;
use vstd::slice::slice_to_vec;
use vstd::std_specs::cmp::PartialEqSpecImpl;
use vstd::std_specs::convert::FromSpecImpl;
use vstd::string::StringSliceAdditionalSpecFns;

verus! {

/// An owning buffer of message bytes. Its view is the sequence of its bytes.
#[derive(Debug)]
pub struct IpcBuffer {
    data: Vec<u8>,
}

impl View for IpcBuffer {
    type V = Seq<u8>;

    closed spec fn view(&self) -> Seq<u8> {
        self.data@
    }
}

impl IpcBuffer {
    /// The empty buffer.
    pub fn new() -> (buf: IpcBuffer)
        ensures
            buf@ == Seq::<u8>::empty(),
    {
        IpcBuffer { data: Vec::new() }
    }

    /// A buffer with a copy of `data`.
    pub fn from_slice(data: &[u8]) -> (buf: IpcBuffer)
        ensures
            buf@ == data@,
    {
        IpcBuffer { data: slice_to_vec(data) }
    }

    /// A buffer that takes over `data`.
    pub fn from_vec(data: Vec<u8>) -> (buf: IpcBuffer)
        ensures
            buf@ == data@,
    {
        IpcBuffer { data }
    }

    /// A buffer with the bytes of `s` followed by one zero byte.
    pub fn from_str(s: &str) -> (buf: IpcBuffer)
        ensures
            buf@ == s.spec_bytes() + seq![0u8],
    {
        let mut v: Vec<u8> = slice_to_vec(s.as_bytes());
        v.push(0);
        IpcBuffer { data: v }
    }

    /// Whether the buffer holds no byte.
    pub fn is_empty(&self) -> (empty: bool)
        ensures
            empty == (self@.len() == 0),
    {
        self.data.len() == 0
    }

    /// The number of bytes.
    pub fn len(&self) -> (n: usize)
        ensures
            n == self@.len(),
    {
        self.data.len()
    }

    /// The bytes.
    pub fn data(&self) -> (bytes: &[u8])
        ensures
            bytes@ == self@,
    {
        self.data.as_slice()
    }

    /// The bytes, for writing in place: the buffer ends up holding what the
    /// caller leaves in the slice.
    pub fn data_mut(&mut self) -> (bytes: &mut [u8])
        ensures
            bytes@ == old(self)@,
            final(self)@ == final(bytes)@,
    {
        self.data.as_mut_slice()
    }

    /// The bytes as a vector; the buffer is used up.
    pub fn into_vec(self) -> (v: Vec<u8>)
        ensures
            v@ == self@,
    {
        self.data
    }

    /// A copy of the bytes.
    pub fn to_vec(&self) -> (v: Vec<u8>)
        ensures
            v@ == self@,
    {
        slice_to_vec(self.data.as_slice())
    }

    /// Exchanges the bytes of the two buffers.
    pub fn swap(&mut self, other: &mut IpcBuffer)
        ensures
            final(self)@ == old(other)@,
            final(other)@ == old(self)@,
    {
        core::mem::swap(&mut self.data, &mut other.data);
    }
}

impl Default for IpcBuffer {
    fn default() -> (buf: IpcBuffer)
        ensures
            buf@ == Seq::<u8>::empty(),
    {
        IpcBuffer::new()
    }
}

impl Clone for IpcBuffer {
    fn clone(&self) -> (buf: IpcBuffer)
        ensures
            buf@ == self@,
    {
        IpcBuffer { data: slice_to_vec(self.data.as_slice()) }
    }
}

impl PartialEq for IpcBuffer {
    fn eq(&self, other: &IpcBuffer) -> (equal: bool) {
        let n: usize = self.data.len();
        if other.data.len() != n {
            assert(self@ != other@);
            return false;
        }
        let mut i: usize = 0;
        while i < n
            invariant
                i <= n,
                n == self.data@.len(),
                n == other.data@.len(),
                forall|j: int| 0 <= j < i ==> self.data@[j] == other.data@[j],
            decreases n - i,
        {
            if self.data[i] != other.data[i] {
                assert(self@ != other@);
                return false;
            }
            i = i + 1;
        }
        assert(self@ =~= other@);
        true
    }
}

impl PartialEqSpecImpl for IpcBuffer {
    open spec fn obeys_eq_spec() -> bool {
        true
    }

    open spec fn eq_spec(&self, other: &IpcBuffer) -> bool {
        self@ == other@
    }
}

impl Eq for IpcBuffer {

}

impl From<Vec<u8>> for IpcBuffer {
    fn from(v: Vec<u8>) -> (buf: IpcBuffer) {
        IpcBuffer { data: v }
    }
}

impl FromSpecImpl<Vec<u8>> for IpcBuffer {
    open spec fn obeys_from_spec() -> bool {
        true
    }

    closed spec fn from_spec(v: Vec<u8>) -> IpcBuffer {
        IpcBuffer { data: v }
    }
}

impl<'a> From<&'a [u8]> for IpcBuffer {
    fn from(s: &'a [u8]) -> (buf: IpcBuffer) {
        IpcBuffer::from_slice(s)
    }
}

impl<'a> FromSpecImpl<&'a [u8]> for IpcBuffer {
    open spec fn obeys_from_spec() -> bool {
        false
    }

    closed spec fn from_spec(s: &'a [u8]) -> IpcBuffer {
        arbitrary()
    }
}

impl<'a> From<&'a str> for IpcBuffer {
    fn from(s: &'a str) -> (buf: IpcBuffer) {
        IpcBuffer::from_str(s)
    }
}

impl<'a> FromSpecImpl<&'a str> for IpcBuffer {
    open spec fn obeys_from_spec() -> bool {
        false
    }

    closed spec fn from_spec(s: &'a str) -> IpcBuffer {
        arbitrary()
    }
}

impl From<String> for IpcBuffer {
    fn from(s: String) -> (buf: IpcBuffer) {
        IpcBuffer::from_str(s.as_str())
    }
}

impl FromSpecImpl<String> for IpcBuffer {
    open spec fn obeys_from_spec() -> bool {
        false
    }

    closed spec fn from_spec(s: String) -> IpcBuffer {
        arbitrary()
    }
}

/// The buffer made from a vector by `From` holds the vector's bytes.
pub proof fn lemma_from_vec(v: Vec<u8>)
    ensures
        <IpcBuffer as vstd::std_specs::convert::FromSpec<Vec<u8>>>::from_spec(v)@ == v@,
{
}

} // verus!
