//! An owned byte string, the payload of a binary value.

use vstd::prelude::*;
use vstd::std_specs::convert::FromSpecImpl;
use vstd::std_specs::cmp::PartialEqSpecImpl;

verus! {

/// Calls `Vec::capacity`, which reports how many elements the vector can hold
/// without reallocating: never fewer than it holds now.
#[verifier::external_body]
fn allocated(bytes: &Vec<u8>) -> (r: usize)
    ensures
        r >= bytes@.len(),
{
    bytes.capacity()
}

/// A sequence of bytes with no inherent text encoding.
#[derive(Debug, Clone, PartialEq, Eq, PartialOrd, Ord, Hash, Default)]
pub struct Binary(pub Vec<u8>);

impl View for Binary {
    type V = Seq<u8>;

    open spec fn view(&self) -> Seq<u8> {
        self.0@
    }
}

impl Binary {
    /// An empty byte string.
    pub fn new() -> (r: Self)
        ensures
            r@ == Seq::<u8>::empty(),
    {
        Binary(Vec::new())
    }

    /// An empty byte string with room for `capacity` bytes.
    pub fn with_capacity(capacity: usize) -> (r: Self)
        ensures
            r@ == Seq::<u8>::empty(),
    {
        Binary(Vec::with_capacity(capacity))
    }

    /// The number of bytes held.
    pub fn len(&self) -> (r: usize)
        ensures
            r == self@.len(),
    {
        self.0.len()
    }

    /// Whether no byte is held.
    pub fn is_empty(&self) -> (r: bool)
        ensures
            r == (self@.len() == 0),
    {
        self.0.is_empty()
    }

    /// How many bytes fit without reallocating; never less than `len`.
    pub fn capacity(&self) -> (r: usize)
        ensures
            r >= self@.len(),
    {
        allocated(&self.0)
    }

    /// Makes room for `additional` more bytes; the contents stay as they are.
    pub fn reserve(&mut self, additional: usize)
        ensures
            final(self)@ == old(self)@,
    {
        self.0.reserve(additional);
    }

    /// Appends one byte.
    pub fn push(&mut self, byte: u8)
        ensures
            final(self)@ == old(self)@.push(byte),
    {
        self.0.push(byte);
    }

    /// Removes the last byte and returns it, or `None` when empty.
    pub fn pop(&mut self) -> (r: Option<u8>)
        ensures
            old(self)@.len() == 0 ==> r.is_none() && final(self)@ == old(self)@,
            old(self)@.len() > 0 ==> r == Some(old(self)@.last()) && final(self)@ == old(
                self,
            )@.drop_last(),
    {
        self.0.pop()
    }

    /// Removes every byte.
    pub fn clear(&mut self)
        ensures
            final(self)@ == Seq::<u8>::empty(),
    {
        self.0.clear();
    }

    /// Keeps the first `len` bytes; does nothing when fewer are held.
    pub fn truncate(&mut self, len: usize)
        ensures
            final(self)@ == (if len <= old(self)@.len() {
                old(self)@.take(len as int)
            } else {
                old(self)@
            }),
    {
        self.0.truncate(len);
    }

    /// Appends every byte of `slice`, in order.
    pub fn extend_from_slice(&mut self, slice: &[u8])
        ensures
            final(self)@ == old(self)@ + slice@,
    {
        self.0.extend_from_slice(slice);
        assert(self.0@ =~= old(self).0@ + slice@);
    }

    /// The bytes as a slice.
    pub fn as_slice(&self) -> (r: &[u8])
        ensures
            r@ == self@,
    {
        self.0.as_slice()
    }
}

impl From<Vec<u8>> for Binary {
    fn from(v: Vec<u8>) -> (r: Self) {
        Binary(v)
    }
}

impl FromSpecImpl<Vec<u8>> for Binary {
    open spec fn obeys_from_spec() -> bool {
        true
    }

    open spec fn from_spec(v: Vec<u8>) -> Self {
        Binary(v)
    }
}

impl From<Binary> for Vec<u8> {
    fn from(binary: Binary) -> (r: Self) {
        binary.0
    }
}

impl FromSpecImpl<Binary> for Vec<u8> {
    open spec fn obeys_from_spec() -> bool {
        true
    }

    open spec fn from_spec(binary: Binary) -> Self {
        binary.0
    }
}

impl core::ops::Deref for Binary {
    type Target = [u8];

    fn deref(&self) -> (r: &[u8])
        ensures
            r@ == self@,
    {
        self.0.as_slice()
    }
}

impl core::ops::DerefMut for Binary {
    fn deref_mut(&mut self) -> (r: &mut [u8])
        ensures
            r@ == old(self)@,
            final(self)@ == final(r)@,
    {
        self.0.as_mut_slice()
    }
}

impl AsRef<[u8]> for Binary {
    fn as_ref(&self) -> (r: &[u8])
        ensures
            r@ == self@,
    {
        self.0.as_slice()
    }
}

impl AsMut<[u8]> for Binary {
    fn as_mut(&mut self) -> (r: &mut [u8])
        ensures
            r@ == old(self)@,
            final(self)@ == final(r)@,
    {
        self.0.as_mut_slice()
    }
}

/// The bytes that a slice holds.
pub open spec fn bytes_of(slice: &[u8]) -> Seq<u8> {
    slice@
}

impl core::borrow::Borrow<[u8]> for Binary {
    /// The bytes as a slice, so that a byte slice finds a `Binary` key.
    fn borrow(&self) -> (r: &[u8])
        ensures
            bytes_of(r) == self@,
    {
        self.0.as_slice()
    }
}

impl From<&[u8]> for Binary {
    fn from(slice: &[u8]) -> (r: Self)
        ensures
            r@ == slice@,
    {
        Binary(vstd::slice::slice_to_vec(slice))
    }
}

impl FromSpecImpl<&[u8]> for Binary {
    open spec fn obeys_from_spec() -> bool {
        false
    }

    open spec fn from_spec(slice: &[u8]) -> Self {
        arbitrary()
    }
}

impl<const N: usize> FromSpecImpl<&[u8; N]> for Binary {
    open spec fn obeys_from_spec() -> bool {
        false
    }

    open spec fn from_spec(arr: &[u8; N]) -> Self {
        arbitrary()
    }
}

impl<const N: usize> FromSpecImpl<[u8; N]> for Binary {
    open spec fn obeys_from_spec() -> bool {
        false
    }

    open spec fn from_spec(arr: [u8; N]) -> Self {
        arbitrary()
    }
}

impl<const N: usize> From<&[u8; N]> for Binary {
    fn from(arr: &[u8; N]) -> (r: Self)
        ensures
            r@ == arr@,
    {
        let mut bytes: Vec<u8> = Vec::new();
        let mut i: usize = 0;
        while i < N
            invariant
                i <= N,
                bytes@ == arr@.take(i as int),
            decreases N - i,
        {
            bytes.push(arr[i]);
            assert(arr@.take(i as int + 1) =~= arr@.take(i as int).push(arr@[i as int]));
            i += 1;
        }
        assert(arr@.take(N as int) =~= arr@);
        Binary(bytes)
    }
}

impl<const N: usize> From<[u8; N]> for Binary {
    fn from(arr: [u8; N]) -> (r: Self)
        ensures
            r@ == arr@,
    {
        let mut bytes: Vec<u8> = Vec::new();
        let mut i: usize = 0;
        while i < N
            invariant
                i <= N,
                bytes@ == arr@.take(i as int),
            decreases N - i,
        {
            bytes.push(arr[i]);
            assert(arr@.take(i as int + 1) =~= arr@.take(i as int).push(arr@[i as int]));
            i += 1;
        }
        assert(arr@.take(N as int) =~= arr@);
        Binary(bytes)
    }
}

impl PartialEq<[u8]> for Binary {
    fn eq(&self, other: &[u8]) -> (r: bool) {
        same_bytes(self.0.as_slice(), other)
    }
}

impl PartialEqSpecImpl<[u8]> for Binary {
    open spec fn obeys_eq_spec() -> bool {
        true
    }

    open spec fn eq_spec(&self, other: &[u8]) -> bool {
        self@ == other@
    }
}

impl PartialEqSpecImpl<Vec<u8>> for Binary {
    open spec fn obeys_eq_spec() -> bool {
        true
    }

    open spec fn eq_spec(&self, other: &Vec<u8>) -> bool {
        self@ == other@
    }
}

impl PartialEq<Vec<u8>> for Binary {
    fn eq(&self, other: &Vec<u8>) -> (r: bool) {
        same_bytes(self.0.as_slice(), other.as_slice())
    }
}

/// Whether two byte slices hold the same bytes.
pub fn same_bytes(a: &[u8], b: &[u8]) -> (r: bool)
    ensures
        r == (a@ == b@),
{
    if a.len() != b.len() {
        return false;
    }
    let mut i: usize = 0;
    while i < a.len()
        invariant
            i <= a.len(),
            a.len() == b.len(),
            a@.take(i as int) == b@.take(i as int),
        decreases a.len() - i,
    {
        if a[i] != b[i] {
            return false;
        }
        assert(a@.take(i as int + 1) =~= a@.take(i as int).push(a@[i as int]));
        assert(b@.take(i as int + 1) =~= b@.take(i as int).push(b@[i as int]));
        i += 1;
    }
    assert(a@.take(a.len() as int) =~= a@);
    assert(b@.take(b.len() as int) =~= b@);
    true
}

impl PartialEq<&[u8]> for Binary {
    fn eq(&self, other: &&[u8]) -> (r: bool) {
        same_bytes(self.0.as_slice(), *other)
    }
}

impl PartialEqSpecImpl<&[u8]> for Binary {
    open spec fn obeys_eq_spec() -> bool {
        true
    }

    open spec fn eq_spec(&self, other: &&[u8]) -> bool {
        self@ == other@
    }
}

impl<const N: usize> PartialEq<[u8; N]> for Binary {
    fn eq(&self, other: &[u8; N]) -> (r: bool) {
        same_bytes(self.0.as_slice(), other.as_slice())
    }
}

impl<const N: usize> PartialEqSpecImpl<[u8; N]> for Binary {
    open spec fn obeys_eq_spec() -> bool {
        true
    }

    open spec fn eq_spec(&self, other: &[u8; N]) -> bool {
        self@ == other@
    }
}

impl<const N: usize> PartialEq<&[u8; N]> for Binary {
    fn eq(&self, other: &&[u8; N]) -> (r: bool) {
        same_bytes(self.0.as_slice(), other.as_slice())
    }
}

impl<const N: usize> PartialEqSpecImpl<&[u8; N]> for Binary {
    open spec fn obeys_eq_spec() -> bool {
        true
    }

    open spec fn eq_spec(&self, other: &&[u8; N]) -> bool {
        self@ == other@
    }
}

impl IntoIterator for Binary {
    type Item = u8;

    type IntoIter = std::vec::IntoIter<u8>;

    /// The iterator over the bytes, in order: the one that the vector of
    /// the bytes gives.
    fn into_iter(self) -> (r: Self::IntoIter)
        ensures
            r == vstd::std_specs::vec::spec_into_iter(self.0),
            vstd::std_specs::iter::IteratorSpec::remaining(&r) == self@,
    {
        self.0.into_iter()
    }
}

} // verus!
