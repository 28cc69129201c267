//! Bytes labelled with the kind of message they are expected to hold.

use vstd::prelude::*;
use crate::message::{WireMessage, DecodeError};

verus! {

/// Bytes that the server expects to hold a `T`, with a read position.
/// Nothing is decoded when they are made.
pub struct ExpectedTypedBytes<T> {
    bytes: Vec<u8>,
    pos: usize,
    _phantom: std::marker::PhantomData<T>,
}

impl<T> View for ExpectedTypedBytes<T> {
    type V = Seq<u8>;

    /// The bytes not yet read.
    closed spec fn view(&self) -> Seq<u8> {
        self.bytes@.skip(self.pos as int)
    }
}

impl<T> ExpectedTypedBytes<T> {
    pub closed spec fn wf(&self) -> bool {
        self.pos <= self.bytes@.len()
    }

    /// Labels bytes; the read position is at their start.
    pub fn from(bytes: Vec<u8>) -> (r: Self)
        ensures
            r.wf(),
            r@ == bytes@,
    {
        let r = ExpectedTypedBytes { bytes, pos: 0, _phantom: std::marker::PhantomData };
        assert(r.bytes@.skip(0) =~= r.bytes@);
        r
    }

    /// How many bytes are left to read.
    pub fn remaining(&self) -> (r: usize)
        requires
            self.wf(),
        ensures
            r == self@.len(),
    {
        self.bytes.len() - self.pos
    }

    /// The bytes left to read.
    pub fn chunk(&self) -> (r: &[u8])
        requires
            self.wf(),
        ensures
            r@ == self@,
    {
        vstd::slice::slice_subrange(self.bytes.as_slice(), self.pos, self.bytes.len())
    }

    /// The bytes left to read.
    pub fn as_ref(&self) -> (r: &[u8])
        requires
            self.wf(),
        ensures
            r@ == self@,
    {
        self.chunk()
    }

    /// Passes over `cnt` bytes.
    pub fn advance(&mut self, cnt: usize)
        requires
            old(self).wf(),
            cnt <= old(self)@.len(),
        ensures
            final(self).wf(),
            final(self)@ == old(self)@.skip(cnt as int),
    {
        assert(self@.len() == self.bytes@.len() - self.pos);
        assert(self.bytes@.len() == self.bytes.len());
        self.pos = self.pos + cnt;
        assert(self@ =~= old(self)@.skip(cnt as int));
    }

    /// The bytes left to read, without the label.
    pub fn into_bytes(self) -> (r: Vec<u8>)
        requires
            self.wf(),
        ensures
            r@ == self@,
    {
        vstd::slice::slice_to_vec(self.chunk())
    }
}

impl<T> std::ops::Deref for ExpectedTypedBytes<T> {
    type Target = [u8];

    /// The bytes left to read.
    fn deref(&self) -> (r: &[u8])
        ensures
            self.wf() ==> r@ == self@,
    {
        if self.pos <= self.bytes.len() {
            self.chunk()
        } else {
            &[]
        }
    }
}

impl<T: WireMessage> ExpectedTypedBytes<T> {
    /// Decodes the bytes left to read as a `T`.
    pub fn decode(&self) -> (r: Result<T, DecodeError>)
        requires
            self.wf(),
        ensures
            match r {
                Ok(m) => T::decode_spec(self@) == Some(m@),
                Err(_) => T::decode_spec(self@) is None,
            },
    {
        T::decode(self.chunk())
    }
}

} // verus!
