//! Shared, immutable byte buffers, such as image data.
use vstd::prelude::*;

use std::sync::Arc;

verus! {

/// Copies bytes into a new shared buffer with `Arc::<[u8]>::from`, which allocates and
/// copies them: the buffer holds the same bytes.
#[verifier::external_body]
fn shared_copy(bytes: &[u8]) -> (r: Arc<[u8]>)
    ensures
        (*r)@ == bytes@,
{
    Arc::from(bytes)
}

/// Clones a handle to a shared buffer with `Arc::clone`, which shares the buffer.
#[verifier::external_body]
fn share(a: &Arc<[u8]>) -> (r: Arc<[u8]>)
    ensures
        (*r)@ == (**a)@,
{
    Arc::clone(a)
}

/// A shared, immutable buffer of bytes; two buffers are equal when they hold the same bytes.
#[derive(Debug, PartialEq, Eq, PartialOrd, Ord, Hash)]
pub struct UniqueBytes(Arc<[u8]>);

impl View for UniqueBytes {
    type V = Seq<u8>;

    closed spec fn view(&self) -> Seq<u8> {
        (*self.0)@
    }
}

impl Clone for UniqueBytes {
    fn clone(&self) -> (r: Self)
        ensures
            r@ == self@,
    {
        UniqueBytes(share(&self.0))
    }
}

impl std::ops::Deref for UniqueBytes {
    type Target = [u8];

    fn deref(&self) -> (r: &[u8])
        ensures
            r@ == self@,
    {
        &self.0
    }
}

impl UniqueBytes {
    /// A buffer holding a copy of `bytes`.
    pub fn new(bytes: &[u8]) -> (r: UniqueBytes)
        ensures
            r@ == bytes@,
    {
        UniqueBytes(shared_copy(bytes))
    }

    /// A buffer that shares an existing allocation.
    pub fn from_shared(bytes: Arc<[u8]>) -> (r: UniqueBytes)
        ensures
            r@ == (*bytes)@,
    {
        UniqueBytes(bytes)
    }

    /// The allocation this buffer shares.
    pub fn shared(&self) -> (r: Arc<[u8]>)
        ensures
            (*r)@ == self@,
    {
        share(&self.0)
    }

    /// The bytes held.
    pub fn as_bytes(&self) -> (r: &[u8])
        ensures
            r@ == self@,
    {
        &self.0
    }

    /// How many bytes are held.
    pub fn len(&self) -> (r: usize)
        ensures
            r == self@.len(),
    {
        self.0.len()
    }
}


/// The buffer that holds exactly `bytes`: buffers are equal when their bytes are.
pub open spec fn buffer_of(bytes: Seq<u8>) -> UniqueBytes {
    choose|r: UniqueBytes| r@ == bytes
}

proof fn lemma_buffer_of(r: UniqueBytes)
    ensures
        buffer_of(r@) == r,
{
    let c = buffer_of(r@);
    assert(c@ == r@);
    assert(&*c.0 =~= &*r.0);
}

impl<'a> From<&'a [u8]> for UniqueBytes {
    fn from(value: &'a [u8]) -> (r: Self) {
        let r = UniqueBytes::new(value);
        proof {
            lemma_buffer_of(r);
        }
        r
    }
}

impl<'a> vstd::std_specs::convert::FromSpecImpl<&'a [u8]> for UniqueBytes {
    open spec fn obeys_from_spec() -> bool {
        true
    }

    open spec fn from_spec(value: &'a [u8]) -> Self {
        buffer_of(value@)
    }
}

impl From<Vec<u8>> for UniqueBytes {
    fn from(value: Vec<u8>) -> (r: Self) {
        let r = UniqueBytes::new(value.as_slice());
        proof {
            lemma_buffer_of(r);
        }
        r
    }
}

impl vstd::std_specs::convert::FromSpecImpl<Vec<u8>> for UniqueBytes {
    open spec fn obeys_from_spec() -> bool {
        true
    }

    open spec fn from_spec(value: Vec<u8>) -> Self {
        buffer_of(value@)
    }
}

} // verus!
