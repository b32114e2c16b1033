//! What holds of every layout.
//!
//! The laws are stated over the model of [`Layout`]: its packed size, the
//! encoding of a value and what bytes decode to. Each law of a type comes
//! with the same law of a list of fields and of the elements of an array,
//! which it rests on.
//!
//! - Size: an encoding is as long as the packed size of the type, and the
//!   size of a composite is the sum of the sizes of its fields.
//! - Round trip: decoding what was encoded gives the value back.
//! - Order forcing: in an explicit byte order nothing depends on the order
//!   that a type, or a type nested in it, prefers.
//! - Decoding gives a value of the type, and the bytes that decode to a
//!   value are the encoding of that value.
//! - A type without a leaf that can fail never fails to decode.
use crate::error::{Fault, InvalidBool, InvalidChar};
use crate::layout::{
    fields_admit, fields_decoding, fields_encoding, repeat_admits, repeat_decoding,
    repeat_encoding, total_atoms, total_size, Layout,
};
use crate::scalar::{word_fills_eight_bytes, Atom, Scalar};
use vstd::prelude::*;

verus! {

/// Size invariant of composites: the fields of one composite followed by
/// those of another take the bytes, and hold the leaves, of both together.
/// So the size of a composite is the sum of the sizes of its fields.
pub proof fn lemma_total_size_sum<E: Copy + From<InvalidChar> + From<InvalidBool>>(
    fields: Seq<Layout<E>>,
    more: Seq<Layout<E>>,
)
    ensures
        total_size(fields + more) == total_size(fields) + total_size(more),
        total_atoms(fields + more) == total_atoms(fields) + total_atoms(more),
    decreases fields.len(),
{
    if fields.len() == 0 {
        assert(fields + more =~= more);
    } else {
        assert((fields + more).drop_first() =~= fields.drop_first() + more);
        lemma_total_size_sum(fields.drop_first(), more);
    }
}

impl<E: Copy + From<InvalidChar> + From<InvalidBool>> Layout<E> {
    /// Size invariant: whatever the value and the byte order, the packed
    /// representation has exactly the packed size of the type, which the
    /// description alone fixes.
    pub proof fn lemma_encoding_len(self, atoms: Seq<Atom>, at: int, little: bool)
        requires
            self.wf(),
            self.admits_at(atoms, at),
        ensures
            self.encoding_at(atoms, at, little).len() == self.spec_packed_size(),
        decreases self, 0nat,
    {
        match self {
            Layout::Scalar(_) => {
                atoms[at].lemma_encoding_len(little);
            },
            Layout::Array(element, count) => {
                lemma_repeat_encoding_len(*element, count as nat, atoms, at, little);
            },
            Layout::Composite(fields, _) => {
                lemma_fields_encoding_len(fields@, atoms, at, little);
            },
            Layout::Variant(variant) => {
                match atoms[at] {
                    Atom::Variant(place) => {
                        variant.discriminants@[place as int].lemma_encoding_len(little);
                    },
                    _ => {},
                }
            },
        }
    }
}

/// The encodings of the fields, one after the other, are as long as the
/// sizes of the fields sum up to.
pub proof fn lemma_fields_encoding_len<E: Copy + From<InvalidChar> + From<InvalidBool>>(
    fields: Seq<Layout<E>>,
    atoms: Seq<Atom>,
    at: int,
    little: bool,
)
    requires
        forall|i: int| 0 <= i < fields.len() ==> (#[trigger] fields[i]).wf(),
        fields_admit(fields, atoms, at),
    ensures
        fields_encoding(fields, atoms, at, little).len() == total_size(fields),
    decreases fields, 0nat,
{
    if fields.len() > 0 {
        fields[0].lemma_encoding_len(atoms, at, little);
        assert forall|i: int| 0 <= i < fields.drop_first().len() implies (
        #[trigger] fields.drop_first()[i]).wf() by {
            assert(fields.drop_first()[i] == fields[i + 1]);
        }
        lemma_fields_encoding_len(
            fields.drop_first(),
            atoms,
            at + fields[0].spec_atom_count(),
            little,
        );
    }
}

/// The encodings of `count` values of `element`, one after the other, are
/// `count` times as long as the size of `element`.
pub proof fn lemma_repeat_encoding_len<E: Copy + From<InvalidChar> + From<InvalidBool>>(
    element: Layout<E>,
    count: nat,
    atoms: Seq<Atom>,
    at: int,
    little: bool,
)
    requires
        element.wf(),
        repeat_admits(element, count, atoms, at),
    ensures
        repeat_encoding(element, count, atoms, at, little).len() == count
            * element.spec_packed_size(),
    decreases element, count + 1,
{
    if count > 0 {
        element.lemma_encoding_len(atoms, at, little);
        lemma_repeat_encoding_len(
            element,
            (count - 1) as nat,
            atoms,
            at + element.spec_atom_count(),
            little,
        );
        crate::layout::lemma_one_more(count, element.spec_packed_size());
    } else {
        assert(count * element.spec_packed_size() == 0) by (nonlinear_arith)
            requires
                count == 0,
        ;
    }
}

/// Whether each variant among the atoms from index `at` on, read as one
/// value of each of `fields`, is the first of its type with its
/// discriminant.
pub open spec fn fields_settled<E: Copy + From<InvalidChar> + From<InvalidBool>>(
    fields: Seq<Layout<E>>,
    atoms: Seq<Atom>,
    at: int,
) -> bool
    decreases fields, 0nat,
{
    if fields.len() == 0 {
        true
    } else {
        fields[0].settled_at(atoms, at) && fields_settled(
            fields.drop_first(),
            atoms,
            at + fields[0].spec_atom_count(),
        )
    }
}

/// Whether each variant among the atoms from index `at` on, read as
/// `count` values of `element`, is the first of its type with its
/// discriminant.
pub open spec fn repeat_settled<E: Copy + From<InvalidChar> + From<InvalidBool>>(
    element: Layout<E>,
    count: nat,
    atoms: Seq<Atom>,
    at: int,
) -> bool
    decreases element, count + 1,
{
    if count == 0 {
        true
    } else {
        element.settled_at(atoms, at) && repeat_settled(
            element,
            (count - 1) as nat,
            atoms,
            at + element.spec_atom_count(),
        )
    }
}

impl<E: Copy + From<InvalidChar> + From<InvalidBool>> Layout<E> {
    /// Whether each variant among the atoms from index `at` on, read as a
    /// value of this type, is the first of its type with its discriminant.
    /// A variant that shares its discriminant with an earlier one is packed
    /// like it, and decodes as the earlier one.
    pub open spec fn settled_at(self, atoms: Seq<Atom>, at: int) -> bool
        decreases self, 0nat,
    {
        match self {
            Layout::Scalar(_) => true,
            Layout::Array(element, count) => repeat_settled(*element, count as nat, atoms, at),
            Layout::Composite(fields, _) => fields_settled(fields@, atoms, at),
            Layout::Variant(variant) => match atoms[at] {
                Atom::Variant(place) => variant.is_first(place as int),
                _ => true,
            },
        }
    }

    /// Round trip: a value of a well-formed type, none of whose variants
    /// shares its discriminant with an earlier variant of its type, encoded
    /// in either order and decoded in the same order, comes back unchanged.
    pub proof fn lemma_round_trip(self, atoms: Seq<Atom>, little: bool)
        requires
            self.wf(),
            self.admits(atoms),
            self.settled_at(atoms, 0),
        ensures
            self.decoding(self.encoding(atoms, little), little) == Ok::<Seq<Atom>, Fault<E>>(atoms),
    {
        let bytes = self.encoding(atoms, little);
        self.lemma_encoding_len(atoms, 0, little);
        assert(bytes.subrange(0, self.spec_packed_size() as int) =~= bytes);
        self.lemma_round_trip_at(atoms, 0, bytes, 0, little);
        assert(atoms.subrange(0, self.spec_atom_count() as int) =~= atoms);
    }

    /// Round trip inside a buffer: where the bytes from index `from` on
    /// are the packed representation of the value that the atoms from
    /// index `at` on hold, those bytes decode to those atoms.
    pub proof fn lemma_round_trip_at(
        self,
        atoms: Seq<Atom>,
        at: int,
        bytes: Seq<u8>,
        from: int,
        little: bool,
    )
        requires
            self.wf(),
            self.admits_at(atoms, at),
            self.settled_at(atoms, at),
            0 <= from,
            from + self.spec_packed_size() <= bytes.len(),
            bytes.subrange(from, from + self.spec_packed_size()) == self.encoding_at(
                atoms,
                at,
                little,
            ),
        ensures
            self.decoding_at(bytes, from, little) == Ok::<Seq<Atom>, Fault<E>>(
                atoms.subrange(at, at + self.spec_atom_count()),
            ),
        decreases self, 0nat,
    {
        match self {
            Layout::Scalar(_) => {
                atoms[at].lemma_round_trip::<E>(little);
                assert(seq![atoms[at]] =~= atoms.subrange(at, at + 1));
            },
            Layout::Array(element, count) => {
                lemma_repeat_round_trip(*element, count as nat, atoms, at, bytes, from, little);
            },
            Layout::Composite(fields, _) => {
                lemma_fields_round_trip(fields@, atoms, at, bytes, from, little);
            },
            Layout::Variant(variant) => {
                match atoms[at] {
                    Atom::Variant(place) => {
                        variant.lemma_round_trip(place as int, little);
                        assert(seq![Atom::Variant(place)] =~= atoms.subrange(at, at + 1));
                    },
                    _ => {},
                }
            },
        }
    }
}

/// Round trip of the fields of a composite, inside a buffer.
pub proof fn lemma_fields_round_trip<E: Copy + From<InvalidChar> + From<InvalidBool>>(
    fields: Seq<Layout<E>>,
    atoms: Seq<Atom>,
    at: int,
    bytes: Seq<u8>,
    from: int,
    little: bool,
)
    requires
        forall|i: int| 0 <= i < fields.len() ==> (#[trigger] fields[i]).wf(),
        0 <= at,
        at + total_atoms(fields) <= atoms.len(),
        fields_admit(fields, atoms, at),
        fields_settled(fields, atoms, at),
        0 <= from,
        from + total_size(fields) <= bytes.len(),
        bytes.subrange(from, from + total_size(fields)) == fields_encoding(
            fields,
            atoms,
            at,
            little,
        ),
    ensures
        fields_decoding(fields, bytes, from, little) == Ok::<Seq<Atom>, Fault<E>>(
            atoms.subrange(at, at + total_atoms(fields)),
        ),
    decreases fields, 0nat,
{
    if fields.len() > 0 {
        let first = fields[0];
        let rest = fields.drop_first();
        let size = first.spec_packed_size() as int;
        let leaves = first.spec_atom_count() as int;
        let window = bytes.subrange(from, from + total_size(fields));
        let head = first.encoding_at(atoms, at, little);
        let tail = fields_encoding(rest, atoms, at + leaves, little);
        assert forall|i: int| 0 <= i < rest.len() implies (#[trigger] rest[i]).wf() by {
            assert(rest[i] == fields[i + 1]);
        }
        first.lemma_encoding_len(atoms, at, little);
        lemma_fields_encoding_len(rest, atoms, at + leaves, little);
        assert(bytes.subrange(from, from + size) =~= head) by {
            assert(window =~= head + tail);
            assert(bytes.subrange(from, from + size) =~= window.subrange(0, size));
            assert((head + tail).subrange(0, size) =~= head);
        }
        assert(bytes.subrange(from + size, from + size + total_size(rest)) =~= tail) by {
            assert(window =~= head + tail);
            assert(bytes.subrange(from + size, from + size + total_size(rest)) =~= window.subrange(
                size,
                size + total_size(rest),
            ));
            assert((head + tail).subrange(size, size + total_size(rest)) =~= tail);
        }
        first.lemma_round_trip_at(atoms, at, bytes, from, little);
        lemma_fields_round_trip(rest, atoms, at + leaves, bytes, from + size, little);
        assert(atoms.subrange(at, at + leaves) + atoms.subrange(
            at + leaves,
            at + leaves + total_atoms(rest),
        ) =~= atoms.subrange(at, at + total_atoms(fields)));
    } else {
        assert(atoms.subrange(at, at + total_atoms(fields)) =~= Seq::<Atom>::empty());
    }
}

/// Round trip of the elements of an array, inside a buffer.
pub proof fn lemma_repeat_round_trip<E: Copy + From<InvalidChar> + From<InvalidBool>>(
    element: Layout<E>,
    count: nat,
    atoms: Seq<Atom>,
    at: int,
    bytes: Seq<u8>,
    from: int,
    little: bool,
)
    requires
        element.wf(),
        0 <= at,
        at + count * element.spec_atom_count() <= atoms.len(),
        repeat_admits(element, count, atoms, at),
        repeat_settled(element, count, atoms, at),
        0 <= from,
        from + count * element.spec_packed_size() <= bytes.len(),
        bytes.subrange(from, from + count * element.spec_packed_size()) == repeat_encoding(
            element,
            count,
            atoms,
            at,
            little,
        ),
    ensures
        repeat_decoding(element, count, bytes, from, little) == Ok::<Seq<Atom>, Fault<E>>(
            atoms.subrange(at, at + count * element.spec_atom_count()),
        ),
    decreases element, count + 1,
{
    let size = element.spec_packed_size() as int;
    let leaves = element.spec_atom_count() as int;
    if count > 0 {
        let fewer = (count - 1) as nat;
        let window = bytes.subrange(from, from + count * size);
        let head = element.encoding_at(atoms, at, little);
        let tail = repeat_encoding(element, fewer, atoms, at + leaves, little);
        crate::layout::lemma_one_more(count, element.spec_packed_size());
        crate::layout::lemma_one_more(count, element.spec_atom_count());
        element.lemma_encoding_len(atoms, at, little);
        lemma_repeat_encoding_len(element, fewer, atoms, at + leaves, little);
        assert(bytes.subrange(from, from + size) =~= head) by {
            assert(window =~= head + tail);
            assert(bytes.subrange(from, from + size) =~= window.subrange(0, size));
            assert((head + tail).subrange(0, size) =~= head);
        }
        assert(bytes.subrange(from + size, from + size + fewer * size) =~= tail) by {
            assert(window =~= head + tail);
            assert(bytes.subrange(from + size, from + size + fewer * size) =~= window.subrange(
                size,
                size + fewer * size,
            ));
            assert((head + tail).subrange(size, size + fewer * size) =~= tail);
        }
        element.lemma_round_trip_at(atoms, at, bytes, from, little);
        lemma_repeat_round_trip(element, fewer, atoms, at + leaves, bytes, from + size, little);
        assert(atoms.subrange(at, at + leaves) + atoms.subrange(
            at + leaves,
            at + leaves + fewer * leaves,
        ) =~= atoms.subrange(at, at + count * leaves));
    } else {
        assert(count * leaves == 0) by (nonlinear_arith)
            requires
                count == 0,
        ;
        assert(atoms.subrange(at, at + count * leaves) =~= Seq::<Atom>::empty());
    }
}

/// Whether the two lists describe the same fields, whatever byte order
/// each of them or anything nested in them prefers.
pub open spec fn fields_alike<E: Copy + From<InvalidChar> + From<InvalidBool>>(
    fields: Seq<Layout<E>>,
    others: Seq<Layout<E>>,
) -> bool
    decreases fields, 0nat,
{
    &&& fields.len() == others.len()
    &&& fields.len() > 0 ==> fields[0].alike(others[0]) && fields_alike(
        fields.drop_first(),
        others.drop_first(),
    )
}

impl<E: Copy + From<InvalidChar> + From<InvalidBool>> Layout<E> {
    /// Whether the two types are the same but for the byte order that
    /// they, or types nested in them, prefer.
    pub open spec fn alike(self, other: Layout<E>) -> bool
        decreases self, 0nat,
    {
        match (self, other) {
            (Layout::Scalar(kind), Layout::Scalar(same)) => kind == same,
            (Layout::Array(element, count), Layout::Array(same, as_many)) => count == as_many
                && element.alike(*same),
            (Layout::Composite(fields, _), Layout::Composite(others, _)) => fields_alike(
                fields@,
                others@,
            ),
            (Layout::Variant(variant), Layout::Variant(same)) => {
                &&& variant.repr == same.repr
                &&& variant.discriminants@ == same.discriminants@
                &&& variant.fallback == same.fallback
            },
            _ => false,
        }
    }

    /// Order forcing: in an explicit byte order, two types that differ
    /// only in the orders that they, or types nested in them, prefer have
    /// the same size, pack every value alike and unpack all bytes alike.
    pub proof fn lemma_order_forcing(
        self,
        other: Layout<E>,
        atoms: Seq<Atom>,
        at: int,
        bytes: Seq<u8>,
        from: int,
        little: bool,
    )
        requires
            self.alike(other),
        ensures
            self.spec_packed_size() == other.spec_packed_size(),
            self.spec_atom_count() == other.spec_atom_count(),
            self.encoding_at(atoms, at, little) == other.encoding_at(atoms, at, little),
            self.decoding_at(bytes, from, little) == other.decoding_at(bytes, from, little),
        decreases self, 0nat,
    {
        match (self, other) {
            (Layout::Array(element, count), Layout::Array(same, _)) => {
                lemma_repeat_order_forcing(*element, *same, count as nat, atoms, at, bytes, from, little);
            },
            (Layout::Composite(fields, _), Layout::Composite(others, _)) => {
                lemma_fields_order_forcing(fields@, others@, atoms, at, bytes, from, little);
            },
            _ => {},
        }
    }
}

/// Order forcing over the fields of two composites.
pub proof fn lemma_fields_order_forcing<E: Copy + From<InvalidChar> + From<InvalidBool>>(
    fields: Seq<Layout<E>>,
    others: Seq<Layout<E>>,
    atoms: Seq<Atom>,
    at: int,
    bytes: Seq<u8>,
    from: int,
    little: bool,
)
    requires
        fields_alike(fields, others),
    ensures
        total_size(fields) == total_size(others),
        total_atoms(fields) == total_atoms(others),
        fields_encoding(fields, atoms, at, little) == fields_encoding(others, atoms, at, little),
        fields_decoding(fields, bytes, from, little) == fields_decoding(others, bytes, from, little),
    decreases fields, 0nat,
{
    if fields.len() > 0 {
        fields[0].lemma_order_forcing(others[0], atoms, at, bytes, from, little);
        lemma_fields_order_forcing(
            fields.drop_first(),
            others.drop_first(),
            atoms,
            at + fields[0].spec_atom_count(),
            bytes,
            from + fields[0].spec_packed_size(),
            little,
        );
    }
}

/// Order forcing over the elements of two arrays.
pub proof fn lemma_repeat_order_forcing<E: Copy + From<InvalidChar> + From<InvalidBool>>(
    element: Layout<E>,
    other: Layout<E>,
    count: nat,
    atoms: Seq<Atom>,
    at: int,
    bytes: Seq<u8>,
    from: int,
    little: bool,
)
    requires
        element.alike(other),
    ensures
        element.spec_packed_size() == other.spec_packed_size(),
        element.spec_atom_count() == other.spec_atom_count(),
        repeat_encoding(element, count, atoms, at, little) == repeat_encoding(
            other,
            count,
            atoms,
            at,
            little,
        ),
        repeat_decoding(element, count, bytes, from, little) == repeat_decoding(
            other,
            count,
            bytes,
            from,
            little,
        ),
    decreases element, count + 1,
{
    element.lemma_order_forcing(other, atoms, at, bytes, from, little);
    if count > 0 {
        lemma_repeat_order_forcing(
            element,
            other,
            (count - 1) as nat,
            atoms,
            at + element.spec_atom_count(),
            bytes,
            from + element.spec_packed_size(),
            little,
        );
    }
}

impl<E: Copy + From<InvalidChar> + From<InvalidBool>> Layout<E> {
    /// What a decode gives is a value of the type: whatever the bytes and
    /// the order, the atoms that a well-formed type decodes to are exactly
    /// one value of it.
    pub proof fn lemma_decoded_is_admitted(self, bytes: Seq<u8>, from: int, little: bool)
        requires
            self.wf(),
            self.decoding_at(bytes, from, little) is Ok,
        ensures
            self.decoding_at(bytes, from, little)->Ok_0.len() == self.spec_atom_count(),
            self.admits_at(self.decoding_at(bytes, from, little)->Ok_0, 0),
        decreases self, 0nat,
    {
        match self {
            Layout::Scalar(_) => {},
            Layout::Array(element, count) => {
                lemma_repeat_decoded_is_admitted(*element, count as nat, bytes, from, little);
            },
            Layout::Composite(fields, _) => {
                lemma_fields_decoded_is_admitted(fields@, bytes, from, little);
            },
            Layout::Variant(variant) => {
                let window = bytes.subrange(from, from + variant.spec_packed_size());
                let number = variant.repr.decoding::<E>(window, little)->Ok_0;
                crate::variant::lemma_first_bound_to(variant.discriminants@, number);
            },
        }
    }

    /// Whether atoms hold a value of this type depends only on the atoms
    /// that the value takes.
    pub proof fn lemma_admits_window(self, atoms: Seq<Atom>, at: int, others: Seq<Atom>, there: int)
        requires
            0 <= at,
            at + self.spec_atom_count() <= atoms.len(),
            0 <= there,
            there + self.spec_atom_count() <= others.len(),
            atoms.subrange(at, at + self.spec_atom_count()) == others.subrange(
                there,
                there + self.spec_atom_count(),
            ),
        ensures
            self.admits_at(atoms, at) == self.admits_at(others, there),
        decreases self, 0nat,
    {
        match self {
            Layout::Array(element, count) => {
                lemma_repeat_admits_window(*element, count as nat, atoms, at, others, there);
            },
            Layout::Composite(fields, _) => {
                lemma_fields_admit_window(fields@, atoms, at, others, there);
            },
            _ => {
                assert(atoms[at] == atoms.subrange(at, at + 1)[0]);
                assert(others[there] == others.subrange(there, there + 1)[0]);
            },
        }
    }
}

/// What the fields of a composite decode to is one value of each of them.
pub proof fn lemma_fields_decoded_is_admitted<E: Copy + From<InvalidChar> + From<InvalidBool>>(
    fields: Seq<Layout<E>>,
    bytes: Seq<u8>,
    from: int,
    little: bool,
)
    requires
        forall|i: int| 0 <= i < fields.len() ==> (#[trigger] fields[i]).wf(),
        fields_decoding(fields, bytes, from, little) is Ok,
    ensures
        fields_decoding(fields, bytes, from, little)->Ok_0.len() == total_atoms(fields),
        fields_admit(fields, fields_decoding(fields, bytes, from, little)->Ok_0, 0),
    decreases fields, 0nat,
{
    if fields.len() > 0 {
        let rest = fields.drop_first();
        let first = fields[0].decoding_at(bytes, from, little)->Ok_0;
        let more = fields_decoding(rest, bytes, from + fields[0].spec_packed_size(), little)->Ok_0;
        assert forall|i: int| 0 <= i < rest.len() implies (#[trigger] rest[i]).wf() by {
            assert(rest[i] == fields[i + 1]);
        }
        fields[0].lemma_decoded_is_admitted(bytes, from, little);
        lemma_fields_decoded_is_admitted(rest, bytes, from + fields[0].spec_packed_size(), little);
        assert((first + more).subrange(0, first.len() as int) =~= first.subrange(
            0,
            first.len() as int,
        ));
        assert((first + more).subrange(first.len() as int, (first + more).len() as int)
            =~= more.subrange(0, more.len() as int));
        fields[0].lemma_admits_window(first, 0, first + more, 0);
        lemma_fields_admit_window(rest, more, 0, first + more, first.len() as int);
    }
}

/// What the elements of an array decode to is as many values of the
/// element.
pub proof fn lemma_repeat_decoded_is_admitted<E: Copy + From<InvalidChar> + From<InvalidBool>>(
    element: Layout<E>,
    count: nat,
    bytes: Seq<u8>,
    from: int,
    little: bool,
)
    requires
        element.wf(),
        repeat_decoding(element, count, bytes, from, little) is Ok,
    ensures
        repeat_decoding(element, count, bytes, from, little)->Ok_0.len() == count
            * element.spec_atom_count(),
        repeat_admits(element, count, repeat_decoding(element, count, bytes, from, little)->Ok_0, 0),
    decreases element, count + 1,
{
    if count > 0 {
        let fewer = (count - 1) as nat;
        let first = element.decoding_at(bytes, from, little)->Ok_0;
        let more = repeat_decoding(
            element,
            fewer,
            bytes,
            from + element.spec_packed_size(),
            little,
        )->Ok_0;
        crate::layout::lemma_one_more(count, element.spec_atom_count());
        element.lemma_decoded_is_admitted(bytes, from, little);
        lemma_repeat_decoded_is_admitted(
            element,
            fewer,
            bytes,
            from + element.spec_packed_size(),
            little,
        );
        assert((first + more).subrange(0, first.len() as int) =~= first.subrange(
            0,
            first.len() as int,
        ));
        assert((first + more).subrange(first.len() as int, (first + more).len() as int)
            =~= more.subrange(0, more.len() as int));
        element.lemma_admits_window(first, 0, first + more, 0);
        lemma_repeat_admits_window(element, fewer, more, 0, first + more, first.len() as int);
    } else {
        assert(count * element.spec_atom_count() == 0) by (nonlinear_arith)
            requires
                count == 0,
        ;
    }
}

/// Whether atoms hold one value of each of `fields` depends only on the
/// atoms that those values take.
pub proof fn lemma_fields_admit_window<E: Copy + From<InvalidChar> + From<InvalidBool>>(
    fields: Seq<Layout<E>>,
    atoms: Seq<Atom>,
    at: int,
    others: Seq<Atom>,
    there: int,
)
    requires
        0 <= at,
        at + total_atoms(fields) <= atoms.len(),
        0 <= there,
        there + total_atoms(fields) <= others.len(),
        atoms.subrange(at, at + total_atoms(fields)) == others.subrange(
            there,
            there + total_atoms(fields),
        ),
    ensures
        fields_admit(fields, atoms, at) == fields_admit(fields, others, there),
    decreases fields, 0nat,
{
    if fields.len() > 0 {
        let leaves = fields[0].spec_atom_count() as int;
        let all = total_atoms(fields) as int;
        let here = atoms.subrange(at, at + all);
        let yonder = others.subrange(there, there + all);
        assert(atoms.subrange(at, at + leaves) =~= here.subrange(0, leaves));
        assert(others.subrange(there, there + leaves) =~= yonder.subrange(0, leaves));
        assert(atoms.subrange(at + leaves, at + all) =~= here.subrange(leaves, all));
        assert(others.subrange(there + leaves, there + all) =~= yonder.subrange(leaves, all));
        fields[0].lemma_admits_window(atoms, at, others, there);
        lemma_fields_admit_window(fields.drop_first(), atoms, at + leaves, others, there + leaves);
    }
}

/// Whether atoms hold `count` values of `element` depends only on the
/// atoms that those values take.
pub proof fn lemma_repeat_admits_window<E: Copy + From<InvalidChar> + From<InvalidBool>>(
    element: Layout<E>,
    count: nat,
    atoms: Seq<Atom>,
    at: int,
    others: Seq<Atom>,
    there: int,
)
    requires
        0 <= at,
        at + count * element.spec_atom_count() <= atoms.len(),
        0 <= there,
        there + count * element.spec_atom_count() <= others.len(),
        atoms.subrange(at, at + count * element.spec_atom_count()) == others.subrange(
            there,
            there + count * element.spec_atom_count(),
        ),
    ensures
        repeat_admits(element, count, atoms, at) == repeat_admits(element, count, others, there),
    decreases element, count + 1,
{
    if count > 0 {
        let leaves = element.spec_atom_count() as int;
        let all = (count * element.spec_atom_count()) as int;
        crate::layout::lemma_one_more(count, element.spec_atom_count());
        let here = atoms.subrange(at, at + all);
        let yonder = others.subrange(there, there + all);
        assert(atoms.subrange(at, at + leaves) =~= here.subrange(0, leaves));
        assert(others.subrange(there, there + leaves) =~= yonder.subrange(0, leaves));
        assert(atoms.subrange(at + leaves, at + all) =~= here.subrange(leaves, all));
        assert(others.subrange(there + leaves, there + all) =~= yonder.subrange(leaves, all));
        element.lemma_admits_window(atoms, at, others, there);
        lemma_repeat_admits_window(
            element,
            (count - 1) as nat,
            atoms,
            at + leaves,
            others,
            there + leaves,
        );
    }
}

impl<E: Copy + From<InvalidChar> + From<InvalidBool>> Layout<E> {
    /// Whether no leaf of this type is a pointer-sized integer, neither a
    /// field nor the integer type of a tagged variant type.
    pub open spec fn word_free(self) -> bool
        decreases self, 0nat,
    {
        match self {
            Layout::Scalar(kind) => kind != Scalar::Usize && kind != Scalar::Isize,
            Layout::Array(element, count) => count == 0 || element.word_free(),
            Layout::Composite(fields, _) => forall|i: int|
                0 <= i < fields@.len() ==> (#[trigger] fields@[i]).word_free(),
            Layout::Variant(variant) => variant.repr != Scalar::Usize && variant.repr
                != Scalar::Isize,
        }
    }

    /// Encoding and decoding are inverse the other way round too: bytes
    /// that a well-formed type decodes to a value are the packed
    /// representation of that value, in the same order. Of a type with a
    /// pointer-sized integer among its leaves this holds on the targets
    /// whose `usize` fills the eight bytes that it is packed in.
    pub proof fn lemma_decoding_encodes(self, bytes: Seq<u8>, little: bool)
        requires
            self.wf(),
            self.word_free() || word_fills_eight_bytes(),
            bytes.len() == self.spec_packed_size(),
            self.decoding(bytes, little) is Ok,
        ensures
            self.admits(self.decoding(bytes, little)->Ok_0),
            self.encoding(self.decoding(bytes, little)->Ok_0, little) == bytes,
    {
        self.lemma_decoded_is_admitted(bytes, 0, little);
        self.lemma_decoding_encodes_at(bytes, 0, little);
        assert(bytes.subrange(0, self.spec_packed_size() as int) =~= bytes);
    }

    /// The same inside a buffer: the bytes from index `from` on that decode
    /// to a value are the packed representation of that value.
    pub proof fn lemma_decoding_encodes_at(self, bytes: Seq<u8>, from: int, little: bool)
        requires
            self.wf(),
            self.word_free() || word_fills_eight_bytes(),
            0 <= from,
            from + self.spec_packed_size() <= bytes.len(),
            self.decoding_at(bytes, from, little) is Ok,
        ensures
            self.encoding_at(self.decoding_at(bytes, from, little)->Ok_0, 0, little)
                == bytes.subrange(from, from + self.spec_packed_size()),
        decreases self, 0nat,
    {
        match self {
            Layout::Scalar(kind) => {
                kind.lemma_decoding_encodes::<E>(
                    bytes.subrange(from, from + kind.spec_packed_size()),
                    little,
                );
            },
            Layout::Array(element, count) => {
                lemma_repeat_decoding_encodes(*element, count as nat, bytes, from, little);
            },
            Layout::Composite(fields, _) => {
                lemma_fields_decoding_encodes(fields@, bytes, from, little);
            },
            Layout::Variant(variant) => {
                let window = bytes.subrange(from, from + variant.spec_packed_size());
                let number = variant.repr.decoding::<E>(window, little)->Ok_0;
                variant.repr.lemma_decoding_encodes::<E>(window, little);
                crate::variant::lemma_first_bound_to(variant.discriminants@, number);
            },
        }
    }

    /// The packed representation of a value depends only on the atoms that
    /// the value takes.
    pub proof fn lemma_encoding_window(
        self,
        atoms: Seq<Atom>,
        at: int,
        others: Seq<Atom>,
        there: int,
        little: bool,
    )
        requires
            0 <= at,
            at + self.spec_atom_count() <= atoms.len(),
            0 <= there,
            there + self.spec_atom_count() <= others.len(),
            atoms.subrange(at, at + self.spec_atom_count()) == others.subrange(
                there,
                there + self.spec_atom_count(),
            ),
        ensures
            self.encoding_at(atoms, at, little) == self.encoding_at(others, there, little),
        decreases self, 0nat,
    {
        match self {
            Layout::Array(element, count) => {
                lemma_repeat_encoding_window(*element, count as nat, atoms, at, others, there, little);
            },
            Layout::Composite(fields, _) => {
                lemma_fields_encoding_window(fields@, atoms, at, others, there, little);
            },
            _ => {
                assert(atoms[at] == atoms.subrange(at, at + 1)[0]);
                assert(others[there] == others.subrange(there, there + 1)[0]);
            },
        }
    }
}

/// The bytes that the fields of a composite decode from are the encodings
/// of what they decode to.
pub proof fn lemma_fields_decoding_encodes<E: Copy + From<InvalidChar> + From<InvalidBool>>(
    fields: Seq<Layout<E>>,
    bytes: Seq<u8>,
    from: int,
    little: bool,
)
    requires
        forall|i: int| 0 <= i < fields.len() ==> (#[trigger] fields[i]).wf(),
        word_fills_eight_bytes() || forall|i: int|
            0 <= i < fields.len() ==> (#[trigger] fields[i]).word_free(),
        0 <= from,
        from + total_size(fields) <= bytes.len(),
        fields_decoding(fields, bytes, from, little) is Ok,
    ensures
        fields_encoding(fields, fields_decoding(fields, bytes, from, little)->Ok_0, 0, little)
            == bytes.subrange(from, from + total_size(fields)),
    decreases fields, 0nat,
{
    if fields.len() > 0 {
        let rest = fields.drop_first();
        let size = fields[0].spec_packed_size() as int;
        let first = fields[0].decoding_at(bytes, from, little)->Ok_0;
        let more = fields_decoding(rest, bytes, from + size, little)->Ok_0;
        assert forall|i: int| 0 <= i < rest.len() implies (#[trigger] rest[i]).wf() by {
            assert(rest[i] == fields[i + 1]);
        }
        if !word_fills_eight_bytes() {
            assert forall|i: int| 0 <= i < rest.len() implies (#[trigger] rest[i]).word_free() by {
                assert(rest[i] == fields[i + 1]);
            }
        }
        fields[0].lemma_decoded_is_admitted(bytes, from, little);
        lemma_fields_decoded_is_admitted(rest, bytes, from + size, little);
        fields[0].lemma_decoding_encodes_at(bytes, from, little);
        lemma_fields_decoding_encodes(rest, bytes, from + size, little);
        assert((first + more).subrange(0, first.len() as int) =~= first.subrange(
            0,
            first.len() as int,
        ));
        assert((first + more).subrange(first.len() as int, (first + more).len() as int)
            =~= more.subrange(0, more.len() as int));
        fields[0].lemma_encoding_window(first, 0, first + more, 0, little);
        lemma_fields_encoding_window(rest, more, 0, first + more, first.len() as int, little);
        assert(bytes.subrange(from, from + size) + bytes.subrange(
            from + size,
            from + size + total_size(rest),
        ) =~= bytes.subrange(from, from + total_size(fields)));
    } else {
        assert(bytes.subrange(from, from + total_size(fields)) =~= Seq::<u8>::empty());
    }
}

/// The bytes that the elements of an array decode from are the encodings
/// of what they decode to.
pub proof fn lemma_repeat_decoding_encodes<E: Copy + From<InvalidChar> + From<InvalidBool>>(
    element: Layout<E>,
    count: nat,
    bytes: Seq<u8>,
    from: int,
    little: bool,
)
    requires
        element.wf(),
        word_fills_eight_bytes() || count == 0 || element.word_free(),
        0 <= from,
        from + count * element.spec_packed_size() <= bytes.len(),
        repeat_decoding(element, count, bytes, from, little) is Ok,
    ensures
        repeat_encoding(
            element,
            count,
            repeat_decoding(element, count, bytes, from, little)->Ok_0,
            0,
            little,
        ) == bytes.subrange(from, from + count * element.spec_packed_size()),
    decreases element, count + 1,
{
    let size = element.spec_packed_size() as int;
    if count > 0 {
        let fewer = (count - 1) as nat;
        let first = element.decoding_at(bytes, from, little)->Ok_0;
        let more = repeat_decoding(element, fewer, bytes, from + size, little)->Ok_0;
        crate::layout::lemma_one_more(count, element.spec_packed_size());
        crate::layout::lemma_one_more(count, element.spec_atom_count());
        element.lemma_decoded_is_admitted(bytes, from, little);
        lemma_repeat_decoded_is_admitted(element, fewer, bytes, from + size, little);
        element.lemma_decoding_encodes_at(bytes, from, little);
        lemma_repeat_decoding_encodes(element, fewer, bytes, from + size, little);
        assert((first + more).subrange(0, first.len() as int) =~= first.subrange(
            0,
            first.len() as int,
        ));
        assert((first + more).subrange(first.len() as int, (first + more).len() as int)
            =~= more.subrange(0, more.len() as int));
        element.lemma_encoding_window(first, 0, first + more, 0, little);
        lemma_repeat_encoding_window(element, fewer, more, 0, first + more, first.len() as int, little);
        assert(bytes.subrange(from, from + size) + bytes.subrange(
            from + size,
            from + size + fewer * size,
        ) =~= bytes.subrange(from, from + count * size));
    } else {
        assert(count * size == 0) by (nonlinear_arith)
            requires
                count == 0,
        ;
        assert(bytes.subrange(from, from + count * size) =~= Seq::<u8>::empty());
    }
}

/// The encodings of one value of each of `fields` depend only on the atoms
/// that those values take.
pub proof fn lemma_fields_encoding_window<E: Copy + From<InvalidChar> + From<InvalidBool>>(
    fields: Seq<Layout<E>>,
    atoms: Seq<Atom>,
    at: int,
    others: Seq<Atom>,
    there: int,
    little: bool,
)
    requires
        0 <= at,
        at + total_atoms(fields) <= atoms.len(),
        0 <= there,
        there + total_atoms(fields) <= others.len(),
        atoms.subrange(at, at + total_atoms(fields)) == others.subrange(
            there,
            there + total_atoms(fields),
        ),
    ensures
        fields_encoding(fields, atoms, at, little) == fields_encoding(fields, others, there, little),
    decreases fields, 0nat,
{
    if fields.len() > 0 {
        let leaves = fields[0].spec_atom_count() as int;
        let all = total_atoms(fields) as int;
        let here = atoms.subrange(at, at + all);
        let yonder = others.subrange(there, there + all);
        assert(atoms.subrange(at, at + leaves) =~= here.subrange(0, leaves));
        assert(others.subrange(there, there + leaves) =~= yonder.subrange(0, leaves));
        assert(atoms.subrange(at + leaves, at + all) =~= here.subrange(leaves, all));
        assert(others.subrange(there + leaves, there + all) =~= yonder.subrange(leaves, all));
        fields[0].lemma_encoding_window(atoms, at, others, there, little);
        lemma_fields_encoding_window(
            fields.drop_first(),
            atoms,
            at + leaves,
            others,
            there + leaves,
            little,
        );
    }
}

/// The encodings of `count` values of `element` depend only on the atoms
/// that those values take.
pub proof fn lemma_repeat_encoding_window<E: Copy + From<InvalidChar> + From<InvalidBool>>(
    element: Layout<E>,
    count: nat,
    atoms: Seq<Atom>,
    at: int,
    others: Seq<Atom>,
    there: int,
    little: bool,
)
    requires
        0 <= at,
        at + count * element.spec_atom_count() <= atoms.len(),
        0 <= there,
        there + count * element.spec_atom_count() <= others.len(),
        atoms.subrange(at, at + count * element.spec_atom_count()) == others.subrange(
            there,
            there + count * element.spec_atom_count(),
        ),
    ensures
        repeat_encoding(element, count, atoms, at, little) == repeat_encoding(
            element,
            count,
            others,
            there,
            little,
        ),
    decreases element, count + 1,
{
    if count > 0 {
        let leaves = element.spec_atom_count() as int;
        let all = (count * element.spec_atom_count()) as int;
        crate::layout::lemma_one_more(count, element.spec_atom_count());
        let here = atoms.subrange(at, at + all);
        let yonder = others.subrange(there, there + all);
        assert(atoms.subrange(at, at + leaves) =~= here.subrange(0, leaves));
        assert(others.subrange(there, there + leaves) =~= yonder.subrange(0, leaves));
        assert(atoms.subrange(at + leaves, at + all) =~= here.subrange(leaves, all));
        assert(others.subrange(there + leaves, there + all) =~= yonder.subrange(leaves, all));
        element.lemma_encoding_window(atoms, at, others, there, little);
        lemma_repeat_encoding_window(
            element,
            (count - 1) as nat,
            atoms,
            at + leaves,
            others,
            there + leaves,
            little,
        );
    }
}

impl<E: Copy + From<InvalidChar> + From<InvalidBool>> Layout<E> {
    /// Whether no leaf of this type can fail to decode: whether none is a
    /// `char`, a `bool` or a tagged variant type.
    pub open spec fn infallible(self) -> bool
        decreases self, 0nat,
    {
        match self {
            Layout::Scalar(kind) => kind != Scalar::Char && kind != Scalar::Bool,
            Layout::Array(element, count) => count == 0 || element.infallible(),
            Layout::Composite(fields, _) => forall|i: int|
                0 <= i < fields@.len() ==> (#[trigger] fields@[i]).infallible(),
            Layout::Variant(_) => false,
        }
    }

    /// A type none of whose leaves can fail never fails to decode: all
    /// bytes stand for a value of it, in either order.
    pub proof fn lemma_infallible_decodes(self, bytes: Seq<u8>, little: bool)
        requires
            self.infallible(),
        ensures
            self.decoding(bytes, little) is Ok,
    {
        self.lemma_infallible_decodes_at(bytes, 0, little);
    }

    /// The same inside a buffer.
    pub proof fn lemma_infallible_decodes_at(self, bytes: Seq<u8>, from: int, little: bool)
        requires
            self.infallible(),
        ensures
            self.decoding_at(bytes, from, little) is Ok,
        decreases self, 0nat,
    {
        match self {
            Layout::Array(element, count) => {
                lemma_repeat_infallible_decodes(*element, count as nat, bytes, from, little);
            },
            Layout::Composite(fields, _) => {
                lemma_fields_infallible_decode(fields@, bytes, from, little);
            },
            _ => {},
        }
    }

    /// Of a well-formed type whose leaves are integers other than the
    /// pointer-sized ones, all bytes are the packed representation of the
    /// value that they decode to: decoding and then encoding gives the
    /// bytes back. Pointer-sized integers are let in on the targets whose
    /// `usize` fills the eight bytes that it is packed in.
    pub proof fn lemma_bytes_round_trip(self, bytes: Seq<u8>, little: bool)
        requires
            self.wf(),
            self.infallible(),
            self.word_free() || word_fills_eight_bytes(),
            bytes.len() == self.spec_packed_size(),
        ensures
            self.decoding(bytes, little) is Ok,
            self.encoding(self.decoding(bytes, little)->Ok_0, little) == bytes,
    {
        self.lemma_infallible_decodes(bytes, little);
        self.lemma_decoding_encodes(bytes, little);
    }
}

/// Fields none of which can fail never fail to decode.
pub proof fn lemma_fields_infallible_decode<E: Copy + From<InvalidChar> + From<InvalidBool>>(
    fields: Seq<Layout<E>>,
    bytes: Seq<u8>,
    from: int,
    little: bool,
)
    requires
        forall|i: int| 0 <= i < fields.len() ==> (#[trigger] fields[i]).infallible(),
    ensures
        fields_decoding(fields, bytes, from, little) is Ok,
    decreases fields, 0nat,
{
    if fields.len() > 0 {
        let rest = fields.drop_first();
        assert forall|i: int| 0 <= i < rest.len() implies (#[trigger] rest[i]).infallible() by {
            assert(rest[i] == fields[i + 1]);
        }
        fields[0].lemma_infallible_decodes_at(bytes, from, little);
        lemma_fields_infallible_decode(rest, bytes, from + fields[0].spec_packed_size(), little);
    }
}

/// Elements that cannot fail never fail to decode.
pub proof fn lemma_repeat_infallible_decodes<E: Copy + From<InvalidChar> + From<InvalidBool>>(
    element: Layout<E>,
    count: nat,
    bytes: Seq<u8>,
    from: int,
    little: bool,
)
    requires
        count == 0 || element.infallible(),
    ensures
        repeat_decoding(element, count, bytes, from, little) is Ok,
    decreases element, count + 1,
{
    if count > 0 {
        element.lemma_infallible_decodes_at(bytes, from, little);
        lemma_repeat_infallible_decodes(
            element,
            (count - 1) as nat,
            bytes,
            from + element.spec_packed_size(),
            little,
        );
    }
}

} // verus!
