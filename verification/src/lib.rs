//! Fixed-size, byte-exact binary encodings with explicit byte order.
//!
//! A value type has one packed size and one preferred byte order. It is
//! encoded into, and decoded from, a byte buffer of exactly that size, in
//! little endian, in big endian, or in the order it prefers.
//!
//! The traits [`ToBytes`], [`FromBytes`] and [`TryFromBytes`] are the contract
//! of a value type, over a model of what its bytes are in each order; the
//! primitive types implement them in [`primitives`], over the arithmetic of
//! [`radix`]. A [`layout::Layout`] composes primitives, arrays, nested
//! composites and tagged variant types into larger value types while the
//! program runs, and [`laws`] proves of every layout that encoding and
//! decoding are inverse, that sizes add up and that an explicit byte order
//! overrides every preference.
//!
//! - [`error`]: what a failed decode reports, and how failures convert.
//! - [`endian`]: the byte order that a type prefers and that the target has.
//! - [`scalar`]: the primitive types and their values as data.
//! - [`variant`]: the tagged variant codec.
//! - [`config`]: the words by which a declaration configures its type.
use core::convert::Infallible;
use vstd::prelude::*;

pub mod config;
pub mod endian;
pub mod error;
pub mod laws;
pub mod layout;
mod private;
pub mod primitives;
pub mod radix;
pub mod scalar;
pub mod variant;

verus! {

/// A byte buffer whose length is fixed by its type. Only the arrays `[u8; N]`
/// are byte buffers.
///
/// The view of a buffer is the sequence of its bytes, in index order.
pub trait ByteArray: private::ByteArray + View<V = Seq<u8>> + Sized {
    /// The length of this byte array.
    const SIZE: usize;

    /// A buffer holds exactly `SIZE` bytes.
    proof fn lemma_size(&self)
        ensures
            self@.len() == Self::SIZE,
    ;

    /// The buffer of all zeros.
    fn zeroed() -> (zeros: Self)
        ensures
            zeros@ == Seq::new(Self::SIZE as nat, |i: int| 0u8),
    ;

    /// The byte at index `i`.
    fn get(&self, i: usize) -> (byte: u8)
        requires
            i < Self::SIZE,
        ensures
            byte == self@[i as int],
    ;

    /// Puts `byte` at index `i`.
    fn set(&mut self, i: usize, byte: u8)
        requires
            i < Self::SIZE,
        ensures
            final(self)@ == old(self)@.update(i as int, byte),
    ;

    /// The buffer as a byte slice.
    fn as_slice(&self) -> (slice: &[u8])
        ensures
            slice@ == self@,
    ;

    /// The buffer that holds the `SIZE` bytes of `slice` from index `at` on.
    fn from_slice(slice: &[u8], at: usize) -> (buffer: Self)
        requires
            at + Self::SIZE <= slice@.len(),
        ensures
            buffer@ == slice@.subrange(at as int, at + Self::SIZE),
    ;

    /// Overwrites the bytes from index `at` on with those of `slice`.
    fn write_range(&mut self, at: usize, slice: &[u8])
        requires
            at + slice@.len() <= Self::SIZE,
        ensures
            final(self)@ == old(self)@.subrange(0, at as int) + slice@ + old(self)@.subrange(
                at + slice@.len(),
                Self::SIZE as int,
            ),
    ;
}

impl<const N: usize> ByteArray for [u8; N] {
    const SIZE: usize = N;

    proof fn lemma_size(&self) {
    }

    fn zeroed() -> (zeros: Self) {
        let zeros = [0u8; N];
        proof {
            vstd::array::axiom_spec_array_fill_for_copy_type::<u8, N>(0u8);
            assert(zeros@ =~= Seq::new(N as nat, |i: int| 0u8));
        }
        zeros
    }

    fn get(&self, i: usize) -> (byte: u8) {
        self[i]
    }

    fn set(&mut self, i: usize, byte: u8) {
        self[i] = byte;
    }

    fn as_slice(&self) -> (slice: &[u8]) {
        self.as_slice()
    }

    fn from_slice(slice: &[u8], at: usize) -> (buffer: Self) {
        let mut buffer = [0u8; N];
        let mut i: usize = 0;
        let len = slice.len();
        while i < N
            invariant
                i <= N,
                len == slice@.len(),
                at + N <= len,
                forall|j: int| 0 <= j < i ==> buffer@[j] == slice@[at + j],
            decreases N - i,
        {
            buffer[i] = slice[at + i];
            i += 1;
        }
        proof {
            assert(buffer@ =~= slice@.subrange(at as int, at + N));
        }
        buffer
    }

    fn write_range(&mut self, at: usize, slice: &[u8]) {
        let mut i: usize = 0;
        let len = slice.len();
        while i < len
            invariant
                i <= len,
                len == slice@.len(),
                at + len <= N,
                forall|j: int| 0 <= j < at ==> self@[j] == old(self)@[j],
                forall|j: int| 0 <= j < i ==> self@[at + j] == slice@[j],
                forall|j: int| at + i <= j < N ==> self@[j] == old(self)@[j],
            decreases len - i,
        {
            self[at + i] = slice[i];
            i += 1;
        }
        proof {
            assert(self@ =~= old(self)@.subrange(0, at as int) + slice@ + old(self)@.subrange(
                at + slice@.len(),
                N as int,
            ));
        }
    }
}

/// Create a value from its representation as a packed byte array of a fixed
/// size, when every such array stands for a value.
///
/// Most times, `from_bytes` should be used: it follows the byte order set by
/// the constant `PREFERS_LE`.
pub trait FromBytes: Sized {
    /// A byte array which can store a packed representation of this type.
    type Bytes: ByteArray;

    /// Is it preferred to represent this type as bytes in the little endian order?
    const PREFERS_LE: bool = true;

    /// The value that `bytes` stand for in little endian.
    spec fn spec_from_le_bytes(bytes: Seq<u8>) -> Self;

    /// The value that `bytes` stand for in big endian.
    spec fn spec_from_be_bytes(bytes: Seq<u8>) -> Self;

    /// Create a value of this type from its representation as a byte array in little endian.
    fn from_le_bytes(bytes: Self::Bytes) -> (value: Self)
        ensures
            value == Self::spec_from_le_bytes(bytes@),
    ;

    /// Create a value of this type from its representation as a byte array in big endian.
    fn from_be_bytes(bytes: Self::Bytes) -> (value: Self)
        ensures
            value == Self::spec_from_be_bytes(bytes@),
    ;

    /// Create a value of this type from its representation as a byte array in
    /// the preferred byte order, set in the associated constant `PREFERS_LE`.
    fn from_bytes(bytes: Self::Bytes) -> (value: Self)
        ensures
            value == if Self::PREFERS_LE {
                Self::spec_from_le_bytes(bytes@)
            } else {
                Self::spec_from_be_bytes(bytes@)
            },
    {
        if Self::PREFERS_LE {
            Self::from_le_bytes(bytes)
        } else {
            Self::from_be_bytes(bytes)
        }
    }

    /// Create a value of this type from its representation as a byte array in
    /// the byte order of the target, whichever of the two that is.
    fn from_ne_bytes(bytes: Self::Bytes) -> (value: Self)
        ensures
            value == Self::spec_from_le_bytes(bytes@) || value == Self::spec_from_be_bytes(
                bytes@,
            ),
    {
        if endian::target_is_little() {
            Self::from_le_bytes(bytes)
        } else {
            Self::from_be_bytes(bytes)
        }
    }
}

/// Try to create a value from its representation as a packed byte array of a
/// fixed size.
///
/// Most times, `try_from_bytes` should be used: it follows the byte order set
/// by the constant `PREFERS_LE`.
pub trait TryFromBytes: Sized {
    /// A byte array which can store a packed representation of this type.
    type Bytes: ByteArray;

    /// A type containing the failure of creating a value of the type from bytes.
    type Error;

    /// Is it preferred to represent this type as bytes in the little endian order?
    const PREFERS_LE: bool = true;

    /// The value that `bytes` stand for in little endian, or why they stand for none.
    spec fn spec_try_from_le_bytes(bytes: Seq<u8>) -> Result<Self, Self::Error>;

    /// The value that `bytes` stand for in big endian, or why they stand for none.
    spec fn spec_try_from_be_bytes(bytes: Seq<u8>) -> Result<Self, Self::Error>;

    /// Try to create a value of this type from its representation as a byte array in little endian.
    fn try_from_le_bytes(bytes: Self::Bytes) -> (value: Result<Self, Self::Error>)
        ensures
            value == Self::spec_try_from_le_bytes(bytes@),
    ;

    /// Try to create a value of this type from its representation as a byte array in big endian.
    fn try_from_be_bytes(bytes: Self::Bytes) -> (value: Result<Self, Self::Error>)
        ensures
            value == Self::spec_try_from_be_bytes(bytes@),
    ;

    /// Try to create a value of this type from its representation as a byte
    /// array in the preferred byte order, set in the associated constant
    /// `PREFERS_LE`.
    fn try_from_bytes(bytes: Self::Bytes) -> (value: Result<Self, Self::Error>)
        ensures
            value == if Self::PREFERS_LE {
                Self::spec_try_from_le_bytes(bytes@)
            } else {
                Self::spec_try_from_be_bytes(bytes@)
            },
    {
        if Self::PREFERS_LE {
            Self::try_from_le_bytes(bytes)
        } else {
            Self::try_from_be_bytes(bytes)
        }
    }

    /// Try to create a value of this type from its representation as a byte
    /// array in the byte order of the target, whichever of the two that is.
    fn try_from_ne_bytes(bytes: Self::Bytes) -> (value: Result<Self, Self::Error>)
        ensures
            value == Self::spec_try_from_le_bytes(bytes@) || value
                == Self::spec_try_from_be_bytes(bytes@),
    {
        if endian::target_is_little() {
            Self::try_from_le_bytes(bytes)
        } else {
            Self::try_from_be_bytes(bytes)
        }
    }
}

/// Pack this type into a byte array of a fixed size.
///
/// Most times, `to_bytes` should be used: it follows the byte order set by
/// the constant `PREFERS_LE`.
pub trait ToBytes: Sized {
    /// A byte array which can store a packed representation of this type.
    type Bytes: ByteArray;

    /// Is it preferred to represent this type as bytes in the little endian order?
    const PREFERS_LE: bool = true;

    /// The packed representation of this value in little endian.
    spec fn spec_to_le_bytes(self) -> Seq<u8>;

    /// The packed representation of this value in big endian.
    spec fn spec_to_be_bytes(self) -> Seq<u8>;

    /// Return the memory representation of this type as a byte array in little endian byte order.
    fn to_le_bytes(self) -> (bytes: Self::Bytes)
        ensures
            bytes@ == self.spec_to_le_bytes(),
    ;

    /// Return the memory representation of this type as a byte array in big endian byte order.
    fn to_be_bytes(self) -> (bytes: Self::Bytes)
        ensures
            bytes@ == self.spec_to_be_bytes(),
    ;

    /// Return the memory representation of this type as a byte array in the
    /// preferred byte order, set in the associated constant `PREFERS_LE`.
    fn to_bytes(self) -> (bytes: Self::Bytes)
        ensures
            bytes@ == if Self::PREFERS_LE {
                self.spec_to_le_bytes()
            } else {
                self.spec_to_be_bytes()
            },
    {
        if Self::PREFERS_LE {
            self.to_le_bytes()
        } else {
            self.to_be_bytes()
        }
    }

    /// Return the memory representation of this type as a byte array in the
    /// byte order of the target, whichever of the two that is.
    fn to_ne_bytes(self) -> (bytes: Self::Bytes)
        ensures
            bytes@ == self.spec_to_le_bytes() || bytes@ == self.spec_to_be_bytes(),
    {
        if endian::target_is_little() {
            self.to_le_bytes()
        } else {
            self.to_be_bytes()
        }
    }
}

/// A decode that cannot fail is a decode that may fail and never does.
impl<B: ByteArray, T: FromBytes<Bytes = B>> TryFromBytes for T {
    type Bytes = B;

    type Error = Infallible;

    const PREFERS_LE: bool = <T as FromBytes>::PREFERS_LE;

    open spec fn spec_try_from_le_bytes(bytes: Seq<u8>) -> Result<Self, Infallible> {
        Ok(<T as FromBytes>::spec_from_le_bytes(bytes))
    }

    open spec fn spec_try_from_be_bytes(bytes: Seq<u8>) -> Result<Self, Infallible> {
        Ok(<T as FromBytes>::spec_from_be_bytes(bytes))
    }

    fn try_from_le_bytes(bytes: B) -> (value: Result<Self, Infallible>) {
        Ok(<T as FromBytes>::from_le_bytes(bytes))
    }

    fn try_from_be_bytes(bytes: B) -> (value: Result<Self, Infallible>) {
        Ok(<T as FromBytes>::from_be_bytes(bytes))
    }
}

/// A raw byte array is its own packed representation in either order.
impl<const N: usize> FromBytes for [u8; N] {
    type Bytes = Self;

    /// The array that holds `bytes`.
    open spec fn spec_from_le_bytes(bytes: Seq<u8>) -> Self {
        choose|array: [u8; N]| array@ == bytes
    }

    /// The array that holds `bytes`.
    open spec fn spec_from_be_bytes(bytes: Seq<u8>) -> Self {
        choose|array: [u8; N]| array@ == bytes
    }

    fn from_le_bytes(bytes: Self) -> (value: Self) {
        proof {
            lemma_array_of_view(bytes);
        }
        bytes
    }

    fn from_be_bytes(bytes: Self) -> (value: Self) {
        proof {
            lemma_array_of_view(bytes);
        }
        bytes
    }
}

/// A raw byte array is its own packed representation in either order.
impl<const N: usize> ToBytes for [u8; N] {
    type Bytes = Self;

    open spec fn spec_to_le_bytes(self) -> Seq<u8> {
        self@
    }

    open spec fn spec_to_be_bytes(self) -> Seq<u8> {
        self@
    }

    fn to_le_bytes(self) -> (bytes: Self) {
        self
    }

    fn to_be_bytes(self) -> (bytes: Self) {
        self
    }
}

/// The value that `bytes` stand for in the order asked for.
pub open spec fn spec_from_bytes_in<T: FromBytes>(bytes: Seq<u8>, little: bool) -> T {
    if little {
        T::spec_from_le_bytes(bytes)
    } else {
        T::spec_from_be_bytes(bytes)
    }
}

/// The value that `bytes` stand for in the order asked for, or why they
/// stand for none.
pub open spec fn spec_try_from_bytes_in<T: TryFromBytes>(bytes: Seq<u8>, little: bool) -> Result<
    T,
    T::Error,
> {
    if little {
        T::spec_try_from_le_bytes(bytes)
    } else {
        T::spec_try_from_be_bytes(bytes)
    }
}

/// The packed representation of `value` in the order asked for.
pub open spec fn spec_to_bytes_in<T: ToBytes>(value: T, little: bool) -> Seq<u8> {
    if little {
        value.spec_to_le_bytes()
    } else {
        value.spec_to_be_bytes()
    }
}

/// Creates a value from its bytes in little endian if `little`, in big
/// endian if not, whatever order the type prefers.
pub fn from_bytes_in<T: FromBytes>(bytes: <T as FromBytes>::Bytes, little: bool) -> (value: T)
    ensures
        value == spec_from_bytes_in::<T>(bytes@, little),
{
    if little {
        T::from_le_bytes(bytes)
    } else {
        T::from_be_bytes(bytes)
    }
}

/// Tries to create a value from its bytes in little endian if `little`, in
/// big endian if not, whatever order the type prefers.
pub fn try_from_bytes_in<T: TryFromBytes>(bytes: <T as TryFromBytes>::Bytes, little: bool) -> (value:
    Result<T, T::Error>)
    ensures
        value == spec_try_from_bytes_in::<T>(bytes@, little),
{
    if little {
        T::try_from_le_bytes(bytes)
    } else {
        T::try_from_be_bytes(bytes)
    }
}

/// Packs a value in little endian if `little`, in big endian if not,
/// whatever order the type prefers.
pub fn to_bytes_in<T: ToBytes>(value: T, little: bool) -> (bytes: <T as ToBytes>::Bytes)
    ensures
        bytes@ == spec_to_bytes_in(value, little),
{
    if little {
        value.to_le_bytes()
    } else {
        value.to_be_bytes()
    }
}

/// Appends the bytes of `bytes` to `out`.
pub fn append_bytes(out: &mut Vec<u8>, bytes: &[u8])
    ensures
        final(out)@ == old(out)@ + bytes@,
{
    let len = bytes.len();
    let mut i: usize = 0;
    while i < len
        invariant
            i <= len,
            len == bytes@.len(),
            out@ == old(out)@ + bytes@.take(i as int),
        decreases len - i,
    {
        out.push(bytes[i]);
        i += 1;
        proof {
            assert(bytes@.take(i as int) =~= bytes@.take(i as int - 1).push(bytes@[i as int - 1]));
            assert(out@ =~= old(out)@ + bytes@.take(i as int));
        }
    }
    proof {
        assert(bytes@.take(len as int) =~= bytes@);
    }
}

/// One step of packing a composite: appends the packed representation of
/// the field `value` to `out`, in the order asked for.
pub fn write_field<T: ToBytes>(value: T, little: bool, out: &mut Vec<u8>)
    ensures
        final(out)@ == old(out)@ + spec_to_bytes_in(value, little),
{
    let bytes = to_bytes_in(value, little);
    append_bytes(out, bytes.as_slice());
}

/// One step of unpacking a composite: creates the field that is packed in
/// `bytes` from index `at` on, in the order asked for. The field ends at
/// index `at + SIZE`, where `SIZE` is the length of its byte array.
pub fn read_field<T: FromBytes>(bytes: &[u8], at: usize, little: bool) -> (value: T)
    requires
        at + <<T as FromBytes>::Bytes as ByteArray>::SIZE <= bytes@.len(),
    ensures
        value == spec_from_bytes_in::<T>(
            bytes@.subrange(at as int, at + <<T as FromBytes>::Bytes as ByteArray>::SIZE),
            little,
        ),
{
    from_bytes_in::<T>(ByteArray::from_slice(bytes, at), little)
}

/// One step of unpacking a composite: tries to create the field that is
/// packed in `bytes` from index `at` on, in the order asked for. The field
/// ends at index `at + SIZE`, where `SIZE` is the length of its byte array.
pub fn try_read_field<T: TryFromBytes>(bytes: &[u8], at: usize, little: bool) -> (value: Result<
    T,
    T::Error,
>)
    requires
        at + <<T as TryFromBytes>::Bytes as ByteArray>::SIZE <= bytes@.len(),
    ensures
        value == spec_try_from_bytes_in::<T>(
            bytes@.subrange(at as int, at + <<T as TryFromBytes>::Bytes as ByteArray>::SIZE),
            little,
        ),
{
    try_from_bytes_in::<T>(ByteArray::from_slice(bytes, at), little)
}

/// A raw byte array comes back from its own bytes.
pub proof fn lemma_raw_bytes_round_trip<const N: usize>(array: [u8; N])
    ensures
        <[u8; N] as FromBytes>::spec_from_le_bytes(array.spec_to_le_bytes()) == array,
        <[u8; N] as FromBytes>::spec_from_be_bytes(array.spec_to_be_bytes()) == array,
{
    lemma_array_of_view(array);
}

/// An array is the only array with its bytes.
proof fn lemma_array_of_view<const N: usize>(array: [u8; N])
    ensures
        (choose|other: [u8; N]| other@ == array@) == array,
{
    let other = choose|other: [u8; N]| other@ == array@;
    assert(other@ == array@);
    assert(other =~= array);
}

} // verus!
