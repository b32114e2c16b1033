//! The layout composer.
//!
//! A [`Layout`] describes a value type: a primitive, a fixed-count array, a
//! composite of fields in declaration order, or a tagged variant type. A
//! value of the type is the sequence of its leaves, the [`Atom`]s, in
//! declaration order.
//!
//! The packed size of a composite is the sum of the sizes of its fields. No
//! offset is stored: encoding and decoding walk the fields in declaration
//! order and keep a running cursor. An explicit byte order is forced on
//! every field, however deep, whatever order a nested type prefers.
use crate::error::{Fault, InvalidBool, InvalidChar};
use crate::scalar::{Atom, Scalar};
use crate::variant::TaggedVariant;
use vstd::prelude::*;

verus! {

/// A value type.
#[derive(Debug, PartialEq, Eq)]
pub enum Layout<E> {
    /// A primitive type.
    Scalar(Scalar),
    /// So many values of one type, packed one after the other.
    Array(Box<Layout<E>>, usize),
    /// Fields in declaration order, and whether the unprefixed operations
    /// of the composite use little endian.
    Composite(Vec<Layout<E>>, bool),
    /// A tagged variant type.
    Variant(TaggedVariant<E>),
}

/// The sum of the packed sizes of `fields`.
pub open spec fn total_size<E: Copy + From<InvalidChar> + From<InvalidBool>>(
    fields: Seq<Layout<E>>,
) -> nat
    decreases fields, 0nat,
{
    if fields.len() == 0 {
        0
    } else {
        fields[0].spec_packed_size() + total_size(fields.drop_first())
    }
}

/// The number of leaves in values of all of `fields`.
pub open spec fn total_atoms<E: Copy + From<InvalidChar> + From<InvalidBool>>(
    fields: Seq<Layout<E>>,
) -> nat
    decreases fields, 0nat,
{
    if fields.len() == 0 {
        0
    } else {
        fields[0].spec_atom_count() + total_atoms(fields.drop_first())
    }
}

/// Whether the atoms from index `at` on hold one value of each of `fields`,
/// in declaration order.
pub open spec fn fields_admit<E: Copy + From<InvalidChar> + From<InvalidBool>>(
    fields: Seq<Layout<E>>,
    atoms: Seq<Atom>,
    at: int,
) -> bool
    decreases fields, 0nat,
{
    if fields.len() == 0 {
        true
    } else {
        fields[0].admits_at(atoms, at) && fields_admit(
            fields.drop_first(),
            atoms,
            at + fields[0].spec_atom_count(),
        )
    }
}

/// Whether the atoms from index `at` on hold `count` values of `element`.
pub open spec fn repeat_admits<E: Copy + From<InvalidChar> + From<InvalidBool>>(
    element: Layout<E>,
    count: nat,
    atoms: Seq<Atom>,
    at: int,
) -> bool
    decreases element, count + 1,
{
    if count == 0 {
        true
    } else {
        element.admits_at(atoms, at) && repeat_admits(
            element,
            (count - 1) as nat,
            atoms,
            at + element.spec_atom_count(),
        )
    }
}

/// The encodings of one value of each of `fields`, one after the other in
/// declaration order, each in the order asked for. The values are the atoms
/// from index `at` on.
pub open spec fn fields_encoding<E: Copy + From<InvalidChar> + From<InvalidBool>>(
    fields: Seq<Layout<E>>,
    atoms: Seq<Atom>,
    at: int,
    little: bool,
) -> Seq<u8>
    decreases fields, 0nat,
{
    if fields.len() == 0 {
        Seq::empty()
    } else {
        fields[0].encoding_at(atoms, at, little) + fields_encoding(
            fields.drop_first(),
            atoms,
            at + fields[0].spec_atom_count(),
            little,
        )
    }
}

/// The encodings of `count` values of `element`, one after the other, each
/// in the order asked for. The values are the atoms from index `at` on.
pub open spec fn repeat_encoding<E: Copy + From<InvalidChar> + From<InvalidBool>>(
    element: Layout<E>,
    count: nat,
    atoms: Seq<Atom>,
    at: int,
    little: bool,
) -> Seq<u8>
    decreases element, count + 1,
{
    if count == 0 {
        Seq::empty()
    } else {
        element.encoding_at(atoms, at, little) + repeat_encoding(
            element,
            (count - 1) as nat,
            atoms,
            at + element.spec_atom_count(),
            little,
        )
    }
}

/// The atoms decoded so far, followed by what the rest decodes to; the
/// failure of the rest where it fails.
pub open spec fn followed_by<E>(
    decoded: Seq<Atom>,
    rest: Result<Seq<Atom>, Fault<E>>,
) -> Result<Seq<Atom>, Fault<E>> {
    match rest {
        Ok(more) => Ok(decoded + more),
        Err(fault) => Err(fault),
    }
}

/// One value of each of `fields`, decoded in declaration order from the
/// bytes from index `at` on, each in the order asked for. The failure is
/// that of the first field that fails.
pub open spec fn fields_decoding<E: Copy + From<InvalidChar> + From<InvalidBool>>(
    fields: Seq<Layout<E>>,
    bytes: Seq<u8>,
    at: int,
    little: bool,
) -> Result<Seq<Atom>, Fault<E>>
    decreases fields, 0nat,
{
    if fields.len() == 0 {
        Ok(Seq::empty())
    } else {
        match fields[0].decoding_at(bytes, at, little) {
            Ok(first) => followed_by(
                first,
                fields_decoding(
                    fields.drop_first(),
                    bytes,
                    at + fields[0].spec_packed_size(),
                    little,
                ),
            ),
            Err(fault) => Err(fault),
        }
    }
}

/// `count` values of `element`, decoded one after the other from the bytes
/// from index `at` on, each in the order asked for. The failure is that of
/// the first value that fails.
pub open spec fn repeat_decoding<E: Copy + From<InvalidChar> + From<InvalidBool>>(
    element: Layout<E>,
    count: nat,
    bytes: Seq<u8>,
    at: int,
    little: bool,
) -> Result<Seq<Atom>, Fault<E>>
    decreases element, count + 1,
{
    if count == 0 {
        Ok(Seq::empty())
    } else {
        match element.decoding_at(bytes, at, little) {
            Ok(first) => followed_by(
                first,
                repeat_decoding(
                    element,
                    (count - 1) as nat,
                    bytes,
                    at + element.spec_packed_size(),
                    little,
                ),
            ),
            Err(fault) => Err(fault),
        }
    }
}

impl<E: Copy + From<InvalidChar> + From<InvalidBool>> Layout<E> {
    /// The packed size: that of the primitive, the count times the size of
    /// the element, the sum of the sizes of the fields, the size of the
    /// integer type of the variants.
    pub open spec fn spec_packed_size(self) -> nat
        decreases self, 0nat,
    {
        match self {
            Layout::Scalar(kind) => kind.spec_packed_size(),
            Layout::Array(element, count) => (count as nat) * element.spec_packed_size(),
            Layout::Composite(fields, _) => total_size(fields@),
            Layout::Variant(variant) => variant.spec_packed_size(),
        }
    }

    /// The number of leaves in a value of this type.
    pub open spec fn spec_atom_count(self) -> nat
        decreases self, 0nat,
    {
        match self {
            Layout::Scalar(_) => 1,
            Layout::Array(element, count) => (count as nat) * element.spec_atom_count(),
            Layout::Composite(fields, _) => total_atoms(fields@),
            Layout::Variant(_) => 1,
        }
    }

    /// Whether the unprefixed operations use little endian. A composite
    /// and a tagged variant type say so themselves; everything else
    /// prefers little endian.
    pub open spec fn spec_prefers_le(self) -> bool {
        match self {
            Layout::Composite(_, prefers_le) => prefers_le,
            Layout::Variant(variant) => variant.prefers_le,
            _ => true,
        }
    }

    /// Every tagged variant type in this type is well formed.
    pub open spec fn wf(self) -> bool
        decreases self, 0nat,
    {
        match self {
            Layout::Scalar(_) => true,
            Layout::Array(element, _) => element.wf(),
            Layout::Composite(fields, _) => forall|i: int|
                0 <= i < fields@.len() ==> (#[trigger] fields@[i]).wf(),
            Layout::Variant(variant) => variant.wf(),
        }
    }

    /// Whether the atoms from index `at` on hold a value of this type.
    pub open spec fn admits_at(self, atoms: Seq<Atom>, at: int) -> bool
        decreases self, 0nat,
    {
        &&& 0 <= at
        &&& at + self.spec_atom_count() <= atoms.len()
        &&& match self {
            Layout::Scalar(kind) => atoms[at].spec_kind() == Some(kind),
            Layout::Array(element, count) => repeat_admits(*element, count as nat, atoms, at),
            Layout::Composite(fields, _) => fields_admit(fields@, atoms, at),
            Layout::Variant(variant) => match atoms[at] {
                Atom::Variant(place) => place < variant.discriminants@.len(),
                _ => false,
            },
        }
    }

    /// Whether `atoms` are exactly one value of this type.
    pub open spec fn admits(self, atoms: Seq<Atom>) -> bool {
        self.admits_at(atoms, 0) && atoms.len() == self.spec_atom_count()
    }

    /// The packed representation, in the order asked for, of the value
    /// that the atoms from index `at` on hold.
    pub open spec fn encoding_at(self, atoms: Seq<Atom>, at: int, little: bool) -> Seq<u8>
        decreases self, 0nat,
    {
        match self {
            Layout::Scalar(_) => atoms[at].encoding(little),
            Layout::Array(element, count) => repeat_encoding(
                *element,
                count as nat,
                atoms,
                at,
                little,
            ),
            Layout::Composite(fields, _) => fields_encoding(fields@, atoms, at, little),
            Layout::Variant(variant) => match atoms[at] {
                Atom::Variant(place) => variant.encoding(place as int, little),
                _ => Seq::empty(),
            },
        }
    }

    /// The packed representation of the value `atoms` in the order asked
    /// for.
    pub open spec fn encoding(self, atoms: Seq<Atom>, little: bool) -> Seq<u8> {
        self.encoding_at(atoms, 0, little)
    }

    /// The value that the bytes from index `at` on stand for in the order
    /// asked for, or the fault of the first leaf that fails.
    pub open spec fn decoding_at(self, bytes: Seq<u8>, at: int, little: bool) -> Result<
        Seq<Atom>,
        Fault<E>,
    >
        decreases self, 0nat,
    {
        match self {
            Layout::Scalar(kind) => match kind.decoding::<E>(
                bytes.subrange(at, at + kind.spec_packed_size()),
                little,
            ) {
                Ok(atom) => Ok(seq![atom]),
                Err(fault) => Err(fault),
            },
            Layout::Array(element, count) => repeat_decoding(
                *element,
                count as nat,
                bytes,
                at,
                little,
            ),
            Layout::Composite(fields, _) => fields_decoding(fields@, bytes, at, little),
            Layout::Variant(variant) => match variant.decoding(
                bytes.subrange(at, at + variant.spec_packed_size()),
                little,
            ) {
                Ok(place) => Ok(seq![Atom::Variant(place as usize)]),
                Err(fault) => Err(fault),
            },
        }
    }

    /// The value that `bytes` stand for in the order asked for, or the
    /// fault of the first leaf that fails.
    pub open spec fn decoding(self, bytes: Seq<u8>, little: bool) -> Result<Seq<Atom>, Fault<E>> {
        self.decoding_at(bytes, 0, little)
    }

    /// Whether `result` is what decoding `bytes` in the order asked for
    /// gives: the value that they stand for, or the fault of the first leaf
    /// that fails, converted into `E`.
    pub open spec fn decodes_to(
        self,
        bytes: Seq<u8>,
        little: bool,
        result: Result<Vec<Atom>, E>,
    ) -> bool {
        match result {
            Ok(atoms) => self.decoding(bytes, little) == Ok::<Seq<Atom>, Fault<E>>(atoms@),
            Err(error) => self.decoding(bytes, little) is Err && self.decoding(
                bytes,
                little,
            )->Err_0.lifts_to(error),
        }
    }
}

/// A product with one more factor is the product plus the other factor.
pub proof fn lemma_one_more(count: nat, each: nat)
    requires
        count > 0,
    ensures
        count * each == each + (count - 1) * each,
{
    assert(count * each == each + (count - 1) * each) by (nonlinear_arith)
        requires
            count > 0,
    ;
}

impl<E: Copy + From<InvalidChar> + From<InvalidBool>> Layout<E> {
    /// Appends to `out` the packed representation, in the order asked for,
    /// of the value that the atoms from index `at` on hold, and returns
    /// the index of the atom after that value. The fields of a composite
    /// are walked in declaration order, and the order asked for is handed
    /// down to each of them.
    pub fn encode_at(&self, atoms: &[Atom], at: usize, little: bool, out: &mut Vec<u8>) -> (next:
        usize)
        requires
            self.admits_at(atoms@, at as int),
        ensures
            final(out)@ == old(out)@ + self.encoding_at(atoms@, at as int, little),
            next == at + self.spec_atom_count(),
        decreases self,
    {
        let ghost before = out@;
        match self {
            Layout::Scalar(_) => {
                assert(self.spec_atom_count() == 1);
                atoms[at].encode(little, out);
                at + 1
            },
            Layout::Array(element, count) => {
                let mut cursor = at;
                let mut done: usize = 0;
                proof {
                    assert(out@ =~= before + Seq::<u8>::empty());
                }
                while done < *count
                    invariant
                        *self == Layout::Array(*element, *count),
                        done <= *count,
                        at <= cursor,
                        cursor + (*count - done) * element.spec_atom_count() == at + self.spec_atom_count(),
                        at + self.spec_atom_count() <= atoms@.len(),
                        repeat_admits(**element, (*count - done) as nat, atoms@, cursor as int),
                        before + self.encoding_at(atoms@, at as int, little) == out@ + repeat_encoding(
                            **element,
                            (*count - done) as nat,
                            atoms@,
                            cursor as int,
                            little,
                        ),
                    decreases *count - done,
                {
                    proof {
                        lemma_one_more((*count - done) as nat, element.spec_atom_count());
                    }
                    let ghost so_far = out@;
                    cursor = element.encode_at(atoms, cursor, little, out);
                    done += 1;
                    proof {
                        let one = element.encoding_at(
                            atoms@,
                            cursor as int - element.spec_atom_count(),
                            little,
                        );
                        let rest = repeat_encoding(
                            **element,
                            (*count - done) as nat,
                            atoms@,
                            cursor as int,
                            little,
                        );
                        assert(so_far + (one + rest) =~= (so_far + one) + rest);
                    }
                }
                proof {
                    assert(out@ + Seq::<u8>::empty() =~= out@);
                    assert((*count - done) * element.spec_atom_count() == 0) by (nonlinear_arith)
                        requires
                            *count == done,
                    ;
                }
                cursor
            },
            Layout::Composite(fields, _) => {
                let mut cursor = at;
                let mut done: usize = 0;
                proof {
                    assert(out@ =~= before + Seq::<u8>::empty());
                    assert(fields@.skip(0) =~= fields@);
                }
                while done < fields.len()
                    invariant
                        *self == Layout::Composite(*fields, self->Composite_1),
                        done <= fields@.len(),
                        at <= cursor,
                        cursor + total_atoms(fields@.skip(done as int)) == at + self.spec_atom_count(),
                        at + self.spec_atom_count() <= atoms@.len(),
                        fields_admit(fields@.skip(done as int), atoms@, cursor as int),
                        before + self.encoding_at(atoms@, at as int, little) == out@ + fields_encoding(
                            fields@.skip(done as int),
                            atoms@,
                            cursor as int,
                            little,
                        ),
                    decreases fields@.len() - done,
                {
                    proof {
                        assert(fields@.skip(done as int).drop_first() =~= fields@.skip(done as int + 1));
                        assert(fields@.skip(done as int)[0] == fields@[done as int]);
                    }
                    let ghost so_far = out@;
                    let ghost start = cursor as int;
                    cursor = fields[done].encode_at(atoms, cursor, little, out);
                    done += 1;
                    proof {
                        let one = fields@[done as int - 1].encoding_at(atoms@, start, little);
                        let rest = fields_encoding(
                            fields@.skip(done as int),
                            atoms@,
                            cursor as int,
                            little,
                        );
                        assert(so_far + (one + rest) =~= (so_far + one) + rest);
                    }
                }
                proof {
                    assert(out@ + Seq::<u8>::empty() =~= out@);
                    assert(fields@.skip(done as int) =~= Seq::<Layout<E>>::empty());
                }
                cursor
            },
            Layout::Variant(variant) => {
                assert(self.spec_atom_count() == 1);
                match atoms[at] {
                    Atom::Variant(place) => {
                        variant.encode(place, little, out);
                    },
                    _ => {},
                }
                at + 1
            },
        }
    }

    /// Appends to `out` the value that the bytes from index `at` on stand
    /// for in the order asked for, and returns the index of the byte after
    /// it. The fields of a composite are walked in declaration order with
    /// a running cursor, and the order asked for is handed down to each of
    /// them. The first leaf that fails ends the walk: its fault, converted
    /// into `E`, is the failure, and `out` then holds nothing of use.
    pub fn decode_at(&self, bytes: &[u8], at: usize, little: bool, out: &mut Vec<Atom>) -> (result:
        Result<usize, E>)
        requires
            at + self.spec_packed_size() <= bytes@.len(),
        ensures
            match result {
                Ok(next) => {
                    &&& next == at + self.spec_packed_size()
                    &&& self.decoding_at(bytes@, at as int, little) is Ok
                    &&& final(out)@ == old(out)@ + self.decoding_at(bytes@, at as int, little)->Ok_0
                },
                Err(error) => {
                    &&& self.decoding_at(bytes@, at as int, little) is Err
                    &&& self.decoding_at(bytes@, at as int, little)->Err_0.lifts_to(error)
                },
            },
        decreases self,
    {
        let ghost before = out@;
        let limit = bytes.len();
        match self {
            Layout::Scalar(kind) => {
                assert(self.spec_packed_size() == kind.spec_packed_size());
                match kind.decode::<E>(bytes, at, little) {
                    Ok(atom) => {
                        out.push(atom);
                        proof {
                            assert(out@ =~= before + seq![atom]);
                        }
                        Ok(at + kind.packed_size())
                    },
                    Err(error) => Err(error),
                }
            },
            Layout::Array(element, count) => {
                let mut cursor = at;
                let mut done: usize = 0;
                let ghost mut decoded = Seq::<Atom>::empty();
                proof {
                    assert(out@ =~= before + decoded);
                    let all = repeat_decoding(**element, *count as nat, bytes@, at as int, little);
                    assert(followed_by(decoded, all) == all) by {
                        if all is Ok {
                            assert(decoded + all->Ok_0 =~= all->Ok_0);
                        }
                    }
                }
                while done < *count
                    invariant
                        *self == Layout::Array(*element, *count),
                        done <= *count,
                        at <= cursor,
                        cursor + (*count - done) * element.spec_packed_size() == at
                            + self.spec_packed_size(),
                        at + self.spec_packed_size() <= bytes@.len(),
                        out@ == before + decoded,
                        self.decoding_at(bytes@, at as int, little) == followed_by(
                            decoded,
                            repeat_decoding(
                                **element,
                                (*count - done) as nat,
                                bytes@,
                                cursor as int,
                                little,
                            ),
                        ),
                    decreases *count - done,
                {
                    proof {
                        lemma_one_more((*count - done) as nat, element.spec_packed_size());
                    }
                    let ghost start = cursor as int;
                    match element.decode_at(bytes, cursor, little, out) {
                        Ok(next) => {
                            cursor = next;
                        },
                        Err(error) => {
                            return Err(error);
                        },
                    }
                    done += 1;
                    proof {
                        let one = element.decoding_at(bytes@, start, little)->Ok_0;
                        let rest = repeat_decoding(
                            **element,
                            (*count - done) as nat,
                            bytes@,
                            cursor as int,
                            little,
                        );
                        if rest is Ok {
                            assert(decoded + (one + rest->Ok_0) =~= (decoded + one) + rest->Ok_0);
                        }
                        assert(out@ =~= before + (decoded + one));
                        decoded = decoded + one;
                    }
                }
                proof {
                    assert(decoded + Seq::<Atom>::empty() =~= decoded);
                    assert((*count - done) * element.spec_packed_size() == 0) by (nonlinear_arith)
                        requires
                            *count == done,
                    ;
                }
                Ok(cursor)
            },
            Layout::Composite(fields, _) => {
                let mut cursor = at;
                let mut done: usize = 0;
                let ghost mut decoded = Seq::<Atom>::empty();
                proof {
                    assert(out@ =~= before + decoded);
                    assert(fields@.skip(0) =~= fields@);
                    let all = fields_decoding(fields@, bytes@, at as int, little);
                    assert(followed_by(decoded, all) == all) by {
                        if all is Ok {
                            assert(decoded + all->Ok_0 =~= all->Ok_0);
                        }
                    }
                }
                while done < fields.len()
                    invariant
                        *self == Layout::Composite(*fields, self->Composite_1),
                        done <= fields@.len(),
                        at <= cursor,
                        cursor + total_size(fields@.skip(done as int)) == at + self.spec_packed_size(),
                        at + self.spec_packed_size() <= bytes@.len(),
                        out@ == before + decoded,
                        self.decoding_at(bytes@, at as int, little) == followed_by(
                            decoded,
                            fields_decoding(fields@.skip(done as int), bytes@, cursor as int, little),
                        ),
                    decreases fields@.len() - done,
                {
                    proof {
                        assert(fields@.skip(done as int).drop_first() =~= fields@.skip(done as int + 1));
                        assert(fields@.skip(done as int)[0] == fields@[done as int]);
                    }
                    let ghost start = cursor as int;
                    match fields[done].decode_at(bytes, cursor, little, out) {
                        Ok(next) => {
                            cursor = next;
                        },
                        Err(error) => {
                            return Err(error);
                        },
                    }
                    done += 1;
                    proof {
                        let one = fields@[done as int - 1].decoding_at(bytes@, start, little)->Ok_0;
                        let rest = fields_decoding(
                            fields@.skip(done as int),
                            bytes@,
                            cursor as int,
                            little,
                        );
                        if rest is Ok {
                            assert(decoded + (one + rest->Ok_0) =~= (decoded + one) + rest->Ok_0);
                        }
                        assert(out@ =~= before + (decoded + one));
                        decoded = decoded + one;
                    }
                }
                proof {
                    assert(decoded + Seq::<Atom>::empty() =~= decoded);
                    assert(fields@.skip(done as int) =~= Seq::<Layout<E>>::empty());
                }
                Ok(cursor)
            },
            Layout::Variant(variant) => {
                assert(self.spec_packed_size() == variant.spec_packed_size());
                match variant.decode(bytes, at, little) {
                    Ok(place) => {
                        out.push(Atom::Variant(place));
                        proof {
                            assert(out@ =~= before + seq![Atom::Variant(place)]);
                        }
                        Ok(at + variant.packed_size())
                    },
                    Err(error) => Err(error),
                }
            },
        }
    }
}

impl<E: Copy + From<InvalidChar> + From<InvalidBool>> Layout<E> {
    /// The type of a raw byte array of `len` bytes: an array of `len`
    /// one-byte integers, which is packed as those bytes in either order.
    pub fn bytes(len: usize) -> (raw: Self)
        ensures
            raw == Layout::<E>::Array(Box::new(Layout::Scalar(Scalar::U8)), len),
    {
        Layout::Array(Box::new(Layout::Scalar(Scalar::U8)), len)
    }

    /// Tests whether the type is well formed: whether every tagged variant
    /// type in it is.
    pub fn is_wf(&self) -> (well_formed: bool)
        ensures
            well_formed == self.wf(),
        decreases self,
    {
        match self {
            Layout::Scalar(_) => true,
            Layout::Array(element, _) => element.is_wf(),
            Layout::Composite(fields, _) => {
                let mut done: usize = 0;
                while done < fields.len()
                    invariant
                        *self == Layout::Composite(*fields, self->Composite_1),
                        done <= fields@.len(),
                        forall|i: int| 0 <= i < done ==> (#[trigger] fields@[i]).wf(),
                    decreases fields@.len() - done,
                {
                    proof {
                        assert(decreases_to!(*self => self->Composite_0));
                        assert(decreases_to!(self->Composite_0 => self->Composite_0@));
                        assert(decreases_to!(fields@ => fields@[done as int]));
                    }
                    if !fields[done].is_wf() {
                        return false;
                    }
                    done += 1;
                }
                true
            },
            Layout::Variant(variant) => variant.is_wf(),
        }
    }

    /// Whether the unprefixed operations use little endian.
    pub fn prefers_le(&self) -> (prefers_le: bool)
        ensures
            prefers_le == self.spec_prefers_le(),
    {
        match self {
            Layout::Composite(_, prefers_le) => *prefers_le,
            Layout::Variant(variant) => variant.prefers_le,
            _ => true,
        }
    }

    /// The packed size, computed from the description alone; none where
    /// it is more than a `usize` holds.
    pub fn packed_size(&self) -> (size: Option<usize>)
        ensures
            match size {
                Some(bytes) => bytes == self.spec_packed_size(),
                None => self.spec_packed_size() > usize::MAX,
            },
        decreases self,
    {
        match self {
            Layout::Scalar(kind) => Some(kind.packed_size()),
            Layout::Array(element, count) => {
                if *count == 0 {
                    assert(self.spec_packed_size() == 0) by (nonlinear_arith)
                        requires
                            self.spec_packed_size() == (*count as nat) * element.spec_packed_size(),
                            *count == 0,
                    ;
                    return Some(0);
                }
                match element.packed_size() {
                    Some(each) => count.checked_mul(each),
                    None => {
                        assert(self.spec_packed_size() > usize::MAX) by (nonlinear_arith)
                            requires
                                self.spec_packed_size() == (*count as nat)
                                    * element.spec_packed_size(),
                                *count >= 1,
                                element.spec_packed_size() > usize::MAX,
                        ;
                        None
                    },
                }
            },
            Layout::Composite(fields, _) => {
                let mut sum: usize = 0;
                let mut done: usize = 0;
                proof {
                    assert(fields@.skip(0) =~= fields@);
                }
                while done < fields.len()
                    invariant
                        *self == Layout::Composite(*fields, self->Composite_1),
                        done <= fields@.len(),
                        sum + total_size(fields@.skip(done as int)) == self.spec_packed_size(),
                    decreases fields@.len() - done,
                {
                    proof {
                        assert(fields@.skip(done as int).drop_first() =~= fields@.skip(done as int + 1));
                        assert(fields@.skip(done as int)[0] == fields@[done as int]);
                    }
                    match fields[done].packed_size() {
                        Some(bytes) => match sum.checked_add(bytes) {
                            Some(more) => {
                                sum = more;
                            },
                            None => {
                                return None;
                            },
                        },
                        None => {
                            return None;
                        },
                    }
                    done += 1;
                }
                proof {
                    assert(fields@.skip(done as int) =~= Seq::<Layout<E>>::empty());
                }
                Some(sum)
            },
            Layout::Variant(variant) => Some(variant.packed_size()),
        }
    }

    /// The number of leaves in a value of this type; none where it is
    /// more than a `usize` holds.
    pub fn atom_count(&self) -> (count: Option<usize>)
        ensures
            match count {
                Some(atoms) => atoms == self.spec_atom_count(),
                None => self.spec_atom_count() > usize::MAX,
            },
        decreases self,
    {
        match self {
            Layout::Scalar(_) => Some(1),
            Layout::Array(element, count) => {
                if *count == 0 {
                    assert(self.spec_atom_count() == 0) by (nonlinear_arith)
                        requires
                            self.spec_atom_count() == (*count as nat) * element.spec_atom_count(),
                            *count == 0,
                    ;
                    return Some(0);
                }
                match element.atom_count() {
                    Some(each) => count.checked_mul(each),
                    None => {
                        assert(self.spec_atom_count() > usize::MAX) by (nonlinear_arith)
                            requires
                                self.spec_atom_count() == (*count as nat)
                                    * element.spec_atom_count(),
                                *count >= 1,
                                element.spec_atom_count() > usize::MAX,
                        ;
                        None
                    },
                }
            },
            Layout::Composite(fields, _) => {
                let mut sum: usize = 0;
                let mut done: usize = 0;
                proof {
                    assert(fields@.skip(0) =~= fields@);
                }
                while done < fields.len()
                    invariant
                        *self == Layout::Composite(*fields, self->Composite_1),
                        done <= fields@.len(),
                        sum + total_atoms(fields@.skip(done as int)) == self.spec_atom_count(),
                    decreases fields@.len() - done,
                {
                    proof {
                        assert(fields@.skip(done as int).drop_first() =~= fields@.skip(done as int + 1));
                        assert(fields@.skip(done as int)[0] == fields@[done as int]);
                    }
                    match fields[done].atom_count() {
                        Some(atoms) => match sum.checked_add(atoms) {
                            Some(more) => {
                                sum = more;
                            },
                            None => {
                                return None;
                            },
                        },
                        None => {
                            return None;
                        },
                    }
                    done += 1;
                }
                proof {
                    assert(fields@.skip(done as int) =~= Seq::<Layout<E>>::empty());
                }
                Some(sum)
            },
            Layout::Variant(_) => Some(1),
        }
    }

    /// Tests whether the atoms from index `at` on hold a value of this
    /// type, and gives the index of the atom after it if they do.
    pub fn holds_at(&self, atoms: &[Atom], at: usize) -> (next: Option<usize>)
        ensures
            match next {
                Some(after) => self.admits_at(atoms@, at as int) && after == at
                    + self.spec_atom_count(),
                None => !self.admits_at(atoms@, at as int),
            },
        decreases self,
    {
        let len = atoms.len();
        if at > len {
            return None;
        }
        match self {
            Layout::Scalar(kind) => {
                if at < len {
                    match atoms[at].kind() {
                        Some(found) => if found == *kind {
                            Some(at + 1)
                        } else {
                            None
                        },
                        None => None,
                    }
                } else {
                    None
                }
            },
            Layout::Array(element, count) => {
                let mut cursor = at;
                let mut done: usize = 0;
                while done < *count
                    invariant
                        *self == Layout::Array(*element, *count),
                        len == atoms@.len(),
                        done <= *count,
                        at <= cursor <= len,
                        cursor + (*count - done) * element.spec_atom_count() == at
                            + self.spec_atom_count(),
                        repeat_admits(**element, *count as nat, atoms@, at as int) == repeat_admits(
                            **element,
                            (*count - done) as nat,
                            atoms@,
                            cursor as int,
                        ),
                    decreases *count - done,
                {
                    proof {
                        lemma_one_more((*count - done) as nat, element.spec_atom_count());
                    }
                    match element.holds_at(atoms, cursor) {
                        Some(after) => {
                            cursor = after;
                        },
                        None => {
                            return None;
                        },
                    }
                    done += 1;
                }
                proof {
                    assert((*count - done) * element.spec_atom_count() == 0) by (nonlinear_arith)
                        requires
                            *count == done,
                    ;
                }
                Some(cursor)
            },
            Layout::Composite(fields, _) => {
                let mut cursor = at;
                let mut done: usize = 0;
                proof {
                    assert(fields@.skip(0) =~= fields@);
                }
                while done < fields.len()
                    invariant
                        *self == Layout::Composite(*fields, self->Composite_1),
                        len == atoms@.len(),
                        done <= fields@.len(),
                        at <= cursor <= len,
                        cursor + total_atoms(fields@.skip(done as int)) == at + self.spec_atom_count(),
                        fields_admit(fields@, atoms@, at as int) == fields_admit(
                            fields@.skip(done as int),
                            atoms@,
                            cursor as int,
                        ),
                    decreases fields@.len() - done,
                {
                    proof {
                        assert(fields@.skip(done as int).drop_first() =~= fields@.skip(done as int + 1));
                        assert(fields@.skip(done as int)[0] == fields@[done as int]);
                    }
                    match fields[done].holds_at(atoms, cursor) {
                        Some(after) => {
                            cursor = after;
                        },
                        None => {
                            return None;
                        },
                    }
                    done += 1;
                }
                proof {
                    assert(fields@.skip(done as int) =~= Seq::<Layout<E>>::empty());
                }
                Some(cursor)
            },
            Layout::Variant(variant) => {
                if at < len {
                    match atoms[at] {
                        Atom::Variant(place) => if place < variant.len() {
                            Some(at + 1)
                        } else {
                            None
                        },
                        _ => None,
                    }
                } else {
                    None
                }
            },
        }
    }

    /// Tests whether `atoms` are exactly one value of this type.
    pub fn holds(&self, atoms: &[Atom]) -> (held: bool)
        ensures
            held == self.admits(atoms@),
    {
        match self.holds_at(atoms, 0) {
            Some(after) => after == atoms.len(),
            None => false,
        }
    }

    /// Packs the value `atoms` in little endian if `little`, in big
    /// endian if not, whatever order this type or a type nested in it
    /// prefers.
    pub fn encode(&self, atoms: &[Atom], little: bool) -> (bytes: Vec<u8>)
        requires
            self.admits(atoms@),
        ensures
            bytes@ == self.encoding(atoms@, little),
            self.wf() ==> bytes@.len() == self.spec_packed_size(),
    {
        let mut bytes: Vec<u8> = Vec::new();
        let next = self.encode_at(atoms, 0, little, &mut bytes);
        proof {
            assert(bytes@ =~= Seq::<u8>::empty() + self.encoding(atoms@, little));
            if self.wf() {
                self.lemma_encoding_len(atoms@, 0, little);
            }
        }
        bytes
    }

    /// Packs the value `atoms` in little endian.
    pub fn to_le_bytes(&self, atoms: &[Atom]) -> (bytes: Vec<u8>)
        requires
            self.admits(atoms@),
        ensures
            bytes@ == self.encoding(atoms@, true),
            self.wf() ==> bytes@.len() == self.spec_packed_size(),
    {
        self.encode(atoms, true)
    }

    /// Packs the value `atoms` in big endian.
    pub fn to_be_bytes(&self, atoms: &[Atom]) -> (bytes: Vec<u8>)
        requires
            self.admits(atoms@),
        ensures
            bytes@ == self.encoding(atoms@, false),
            self.wf() ==> bytes@.len() == self.spec_packed_size(),
    {
        self.encode(atoms, false)
    }

    /// Packs the value `atoms` in the order that this type prefers. That
    /// order is forced on every type nested in it.
    pub fn to_bytes(&self, atoms: &[Atom]) -> (bytes: Vec<u8>)
        requires
            self.admits(atoms@),
        ensures
            bytes@ == self.encoding(atoms@, self.spec_prefers_le()),
            self.wf() ==> bytes@.len() == self.spec_packed_size(),
    {
        self.encode(atoms, self.prefers_le())
    }

    /// Packs the value `atoms` in the byte order of the target, whichever
    /// of the two that is.
    pub fn to_ne_bytes(&self, atoms: &[Atom]) -> (bytes: Vec<u8>)
        requires
            self.admits(atoms@),
        ensures
            bytes@ == self.encoding(atoms@, true) || bytes@ == self.encoding(atoms@, false),
            self.wf() ==> bytes@.len() == self.spec_packed_size(),
    {
        self.encode(atoms, crate::endian::target_is_little())
    }

    /// Unpacks the value that `bytes` stand for in little endian if
    /// `little`, in big endian if not, whatever order this type or a type
    /// nested in it prefers. The first leaf that fails makes the whole
    /// decode fail, with its fault converted into `E`. A type without a
    /// `char`, a `bool` or a tagged variant type among its leaves never
    /// fails.
    pub fn decode(&self, bytes: &[u8], little: bool) -> (result: Result<Vec<Atom>, E>)
        requires
            bytes@.len() == self.spec_packed_size(),
        ensures
            self.decodes_to(bytes@, little, result),
            self.wf() ==> (result matches Ok(atoms) ==> self.admits(atoms@)),
            self.infallible() ==> result is Ok,
    {
        let mut atoms: Vec<Atom> = Vec::new();
        match self.decode_at(bytes, 0, little, &mut atoms) {
            Ok(_) => {
                proof {
                    let decoded = self.decoding(bytes@, little)->Ok_0;
                    assert(atoms@ =~= Seq::<Atom>::empty() + decoded);
                    assert(atoms@ =~= decoded);
                    if self.wf() {
                        self.lemma_decoded_is_admitted(bytes@, 0, little);
                    }
                }
                Ok(atoms)
            },
            Err(error) => {
                proof {
                    if self.infallible() {
                        self.lemma_infallible_decodes(bytes@, little);
                    }
                }
                Err(error)
            },
        }
    }

    /// Unpacks the value that `bytes` stand for in little endian.
    pub fn try_from_le_bytes(&self, bytes: &[u8]) -> (result: Result<Vec<Atom>, E>)
        requires
            bytes@.len() == self.spec_packed_size(),
        ensures
            self.decodes_to(bytes@, true, result),
            self.wf() ==> (result matches Ok(atoms) ==> self.admits(atoms@)),
            self.infallible() ==> result is Ok,
    {
        self.decode(bytes, true)
    }

    /// Unpacks the value that `bytes` stand for in big endian.
    pub fn try_from_be_bytes(&self, bytes: &[u8]) -> (result: Result<Vec<Atom>, E>)
        requires
            bytes@.len() == self.spec_packed_size(),
        ensures
            self.decodes_to(bytes@, false, result),
            self.wf() ==> (result matches Ok(atoms) ==> self.admits(atoms@)),
            self.infallible() ==> result is Ok,
    {
        self.decode(bytes, false)
    }

    /// Unpacks the value that `bytes` stand for in the order that this
    /// type prefers. That order is forced on every type nested in it.
    pub fn try_from_bytes(&self, bytes: &[u8]) -> (result: Result<Vec<Atom>, E>)
        requires
            bytes@.len() == self.spec_packed_size(),
        ensures
            self.decodes_to(bytes@, self.spec_prefers_le(), result),
            self.wf() ==> (result matches Ok(atoms) ==> self.admits(atoms@)),
            self.infallible() ==> result is Ok,
    {
        self.decode(bytes, self.prefers_le())
    }

    /// Unpacks the value that `bytes` stand for in the byte order of the
    /// target, whichever of the two that is.
    pub fn try_from_ne_bytes(&self, bytes: &[u8]) -> (result: Result<Vec<Atom>, E>)
        requires
            bytes@.len() == self.spec_packed_size(),
        ensures
            self.decodes_to(bytes@, true, result) || self.decodes_to(bytes@, false, result),
            self.wf() ==> (result matches Ok(atoms) ==> self.admits(atoms@)),
            self.infallible() ==> result is Ok,
    {
        self.decode(bytes, crate::endian::target_is_little())
    }
}

} // verus!
