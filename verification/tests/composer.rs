use packbytes::error::{InvalidBool, InvalidChar, InvalidData};
use packbytes::layout::Layout;
use packbytes::append_bytes;
use packbytes::scalar::{Atom, Scalar};
use packbytes::variant::TaggedVariant;

#[derive(Debug, Clone, Copy, PartialEq, Eq)]
enum Failure {
    BadChar,
    BadBool,
    BadColor,
    BadShape,
}

impl Default for Failure {
    fn default() -> Self {
        Failure::BadShape
    }
}

impl From<InvalidChar> for Failure {
    fn from(_: InvalidChar) -> Self {
        Failure::BadChar
    }
}

impl From<InvalidBool> for Failure {
    fn from(_: InvalidBool) -> Self {
        Failure::BadBool
    }
}

fn scalar<E>(kind: Scalar) -> Layout<E> {
    Layout::Scalar(kind)
}

fn color() -> TaggedVariant<Failure> {
    TaggedVariant::new(
        Scalar::I16,
        vec![Atom::I16(-1), Atom::I16(7), Atom::I16(0x0102)],
        Failure::BadColor,
        false,
    )
    .unwrap()
}

/// `struct Inner { flag: bool, letter: char }`, which prefers big endian.
fn inner() -> Layout<Failure> {
    Layout::Composite(vec![scalar(Scalar::Bool), scalar(Scalar::Char)], false)
}

/// `struct Outer { id: u16, inner: Inner, color: Color, tail: [Inner; 2] }`,
/// which prefers little endian.
fn outer() -> Layout<Failure> {
    Layout::Composite(
        vec![
            scalar(Scalar::U16),
            inner(),
            Layout::Variant(color()),
            Layout::Array(Box::new(inner()), 2),
        ],
        true,
    )
}

fn outer_value() -> Vec<Atom> {
    vec![
        Atom::U16(0x0a0b),
        Atom::Bool(true),
        Atom::Char('A'),
        Atom::Variant(2),
        Atom::Bool(false),
        Atom::Char('é'),
        Atom::Bool(true),
        Atom::Char('z'),
    ]
}

#[test]
fn size_is_the_sum_of_the_fields() {
    assert_eq!(inner().packed_size(), Some(1 + 4));
    assert_eq!(outer().packed_size(), Some(2 + 5 + 2 + 2 * 5));
    assert_eq!(inner().atom_count(), Some(2));
    assert_eq!(outer().atom_count(), Some(1 + 2 + 1 + 2 * 2));
    assert_eq!(Layout::<InvalidData>::bytes(12).packed_size(), Some(12));
    assert_eq!(Layout::<InvalidData>::bytes(12).atom_count(), Some(12));
    assert_eq!(scalar::<InvalidData>(Scalar::Unit).packed_size(), Some(0));
    assert_eq!(scalar::<InvalidData>(Scalar::Unit).atom_count(), Some(1));
    assert_eq!(scalar::<InvalidData>(Scalar::U128).packed_size(), Some(16));
    assert_eq!(Layout::Variant(color()).packed_size(), Some(2));
    let empty: Layout<InvalidData> = Layout::Array(Box::new(scalar(Scalar::U64)), 0);
    assert_eq!(empty.packed_size(), Some(0));
}

#[test]
fn size_that_does_not_fit() {
    let huge: Layout<InvalidData> = Layout::Array(Box::new(scalar(Scalar::U16)), usize::MAX);
    assert_eq!(huge.packed_size(), None);
    assert_eq!(huge.atom_count(), Some(usize::MAX));
    let doubled: Layout<InvalidData> = Layout::Composite(
        vec![Layout::bytes(usize::MAX), scalar(Scalar::U8)],
        true,
    );
    assert_eq!(doubled.packed_size(), None);
    assert_eq!(doubled.atom_count(), None);
    // No element, whatever its size.
    let none: Layout<InvalidData> = Layout::Array(
        Box::new(Layout::Array(Box::new(scalar(Scalar::U16)), usize::MAX)),
        0,
    );
    assert_eq!(none.packed_size(), Some(0));
}

#[test]
fn layout_in_declaration_order() {
    let little = outer().to_le_bytes(&outer_value());
    assert_eq!(
        little,
        [
            0x0b, 0x0a, // id
            1, 0x41, 0, 0, 0, // inner
            0x02, 0x01, // color
            0, 0xe9, 0, 0, 0, // tail[0]
            1, 0x7a, 0, 0, 0, // tail[1]
        ]
    );
    let big = outer().to_be_bytes(&outer_value());
    assert_eq!(
        big,
        [
            0x0a, 0x0b, // id
            1, 0, 0, 0, 0x41, // inner
            0x01, 0x02, // color
            0, 0, 0, 0, 0xe9, // tail[0]
            1, 0, 0, 0, 0x7a, // tail[1]
        ]
    );
}

#[test]
fn round_trip_in_both_orders() {
    let value = outer_value();
    for little in [true, false] {
        let bytes = outer().encode(&value, little);
        assert_eq!(bytes.len(), 19);
        assert_eq!(outer().decode(&bytes, little), Ok(value.clone()));
    }
    let ne = outer().to_ne_bytes(&value);
    assert_eq!(outer().try_from_ne_bytes(&ne), Ok(value));
}

#[test]
fn round_trip_of_every_primitive() {
    let fields: Vec<Layout<Failure>> = vec![
        scalar(Scalar::U8),
        scalar(Scalar::I8),
        scalar(Scalar::U16),
        scalar(Scalar::I16),
        scalar(Scalar::U32),
        scalar(Scalar::I32),
        scalar(Scalar::U64),
        scalar(Scalar::I64),
        scalar(Scalar::U128),
        scalar(Scalar::I128),
        scalar(Scalar::Usize),
        scalar(Scalar::Isize),
        scalar(Scalar::Char),
        scalar(Scalar::Bool),
        scalar(Scalar::Unit),
    ];
    let all = Layout::Composite(fields, true);
    let value = vec![
        Atom::U8(0xfe),
        Atom::I8(-2),
        Atom::U16(0xfedc),
        Atom::I16(-300),
        Atom::U32(0xfedc_ba98),
        Atom::I32(-70_000),
        Atom::U64(u64::MAX - 1),
        Atom::I64(i64::MIN + 1),
        Atom::U128(u128::MAX - 1),
        Atom::I128(i128::MIN),
        Atom::Usize(usize::MAX),
        Atom::Isize(isize::MIN),
        Atom::Char('\u{10ffff}'),
        Atom::Bool(true),
        Atom::Unit,
    ];
    assert_eq!(
        all.packed_size(),
        Some(1 + 1 + 2 + 2 + 4 + 4 + 8 + 8 + 16 + 16 + 8 + 8 + 4 + 1)
    );
    assert!(all.holds(&value));
    for little in [true, false] {
        let bytes = all.encode(&value, little);
        assert_eq!(Some(bytes.len()), all.packed_size());
        assert_eq!(all.decode(&bytes, little), Ok(value.clone()));
    }
}

#[test]
fn preferred_order_is_that_of_the_outermost_type() {
    let value = [Atom::Bool(true), Atom::Char('A')];
    assert!(!inner().prefers_le());
    assert_eq!(inner().to_bytes(&value), inner().to_be_bytes(&value));
    assert_eq!(inner().to_bytes(&value), [1, 0, 0, 0, 0x41]);
    assert_eq!(
        inner().try_from_bytes(&[1, 0, 0, 0, 0x41]),
        Ok(value.to_vec())
    );
    assert!(outer().prefers_le());
    assert_eq!(
        outer().to_bytes(&outer_value()),
        outer().to_le_bytes(&outer_value())
    );
    let little = outer().to_le_bytes(&outer_value());
    assert_eq!(outer().try_from_bytes(&little), Ok(outer_value()));
    assert!(scalar::<InvalidData>(Scalar::U32).prefers_le());
    assert!(Layout::<InvalidData>::bytes(3).prefers_le());
    assert!(!Layout::Variant(color()).prefers_le());
    assert_eq!(
        Layout::Variant(color()).to_bytes(&[Atom::Variant(2)]),
        [0x01, 0x02]
    );
    assert_eq!(
        Layout::Variant(color()).try_from_bytes(&[0x01, 0x02]),
        Ok(vec![Atom::Variant(2)])
    );
}

#[test]
fn explicit_order_overrides_nested_preferences() {
    // The same fields, with every preference turned round.
    let turned_inner: Layout<Failure> =
        Layout::Composite(vec![scalar(Scalar::Bool), scalar(Scalar::Char)], true);
    let mut turned_color = color();
    turned_color.prefers_le = true;
    let turned: Layout<Failure> = Layout::Composite(
        vec![
            scalar(Scalar::U16),
            Layout::Composite(vec![scalar(Scalar::Bool), scalar(Scalar::Char)], true),
            Layout::Variant(turned_color),
            Layout::Array(Box::new(turned_inner), 2),
        ],
        false,
    );
    for little in [true, false] {
        let bytes = outer().encode(&outer_value(), little);
        assert_eq!(bytes, turned.encode(&outer_value(), little));
        assert_eq!(outer().decode(&bytes, little), turned.decode(&bytes, little));
    }
}

#[test]
fn first_failure_wins() {
    // Both the flag and the letter of `inner` are invalid: the flag comes first.
    let bytes = [
        0x0b, 0x0a, 2, 0, 0xd8, 0, 0, 0x02, 0x01, 0, 0xe9, 0, 0, 0, 1, 0x7a, 0, 0, 0,
    ];
    assert_eq!(outer().try_from_le_bytes(&bytes), Err(Failure::BadBool));
    // Only the letter is invalid.
    let bytes = [
        0x0b, 0x0a, 1, 0, 0xd8, 0, 0, 0x02, 0x01, 0, 0xe9, 0, 0, 0, 1, 0x7a, 0, 0, 0,
    ];
    assert_eq!(outer().try_from_le_bytes(&bytes), Err(Failure::BadChar));
    // The color is bound to no variant, and a later element is invalid too.
    let bytes = [
        0x0b, 0x0a, 1, 0x41, 0, 0, 0, 0x03, 0x01, 0, 0xe9, 0, 0, 0, 9, 0x7a, 0, 0, 0,
    ];
    assert_eq!(outer().try_from_le_bytes(&bytes), Err(Failure::BadColor));
    // Only the last element of the array is invalid.
    let bytes = [
        0x0b, 0x0a, 1, 0x41, 0, 0, 0, 0x02, 0x01, 0, 0xe9, 0, 0, 0, 9, 0x7a, 0, 0, 0,
    ];
    assert_eq!(outer().try_from_le_bytes(&bytes), Err(Failure::BadBool));
}

#[test]
fn invalid_leaves_widen_into_invalid_data() {
    let pair: Layout<InvalidData> =
        Layout::Composite(vec![scalar(Scalar::Char), scalar(Scalar::Bool)], true);
    assert_eq!(
        pair.try_from_le_bytes(&[0x41, 0, 0, 0, 1]),
        Ok(vec![Atom::Char('A'), Atom::Bool(true)])
    );
    assert_eq!(
        pair.try_from_le_bytes(&[0, 0, 0x11, 0, 1]),
        Err(InvalidData)
    );
    assert_eq!(pair.try_from_le_bytes(&[0x41, 0, 0, 0, 2]), Err(InvalidData));
}

#[test]
fn variant_codec() {
    let color = color();
    assert_eq!(color.len(), 3);
    assert_eq!(color.packed_size(), 2);
    let mut out = vec![0xee];
    color.encode(0, true, &mut out);
    color.encode(1, false, &mut out);
    assert_eq!(out, [0xee, 0xff, 0xff, 0, 7]);
    assert_eq!(color.decode(&out, 1, true), Ok(0));
    assert_eq!(color.decode(&out, 3, false), Ok(1));
    assert_eq!(color.decode(&out, 3, true), Err(Failure::BadColor));
    assert_eq!(color.decode(&[0x02, 0x01], 0, true), Ok(2));
    assert_eq!(color.decode(&[0x02, 0x01], 0, false), Err(Failure::BadColor));
    assert_eq!(color.find(Atom::I16(7)), Some(1));
    assert_eq!(color.find(Atom::I16(8)), None);
    assert_eq!(color.find(Atom::U16(7)), None);
}

#[test]
fn shared_discriminant_decodes_as_the_first() {
    let shape = TaggedVariant::new(
        Scalar::U8,
        vec![Atom::U8(4), Atom::U8(9), Atom::U8(4)],
        Failure::BadShape,
        true,
    )
    .unwrap();
    assert_eq!(shape.find(Atom::U8(4)), Some(0));
    let layout = Layout::Variant(shape);
    assert_eq!(layout.to_le_bytes(&[Atom::Variant(2)]), [4]);
    assert_eq!(layout.try_from_le_bytes(&[4]), Ok(vec![Atom::Variant(0)]));
    assert_eq!(layout.try_from_le_bytes(&[9]), Ok(vec![Atom::Variant(1)]));
    assert_eq!(layout.try_from_le_bytes(&[5]), Err(Failure::BadShape));
}

#[test]
fn variant_type_that_cannot_be_declared() {
    assert!(TaggedVariant::new(Scalar::Bool, vec![], InvalidData, true).is_none());
    assert!(TaggedVariant::new(Scalar::Char, vec![], InvalidData, true).is_none());
    assert!(TaggedVariant::new(Scalar::Unit, vec![], InvalidData, true).is_none());
    assert!(
        TaggedVariant::new(Scalar::U8, vec![Atom::U8(1), Atom::U16(2)], InvalidData, true)
            .is_none()
    );
    assert!(TaggedVariant::new(Scalar::U8, vec![Atom::Variant(0)], InvalidData, true).is_none());
    assert!(TaggedVariant::general(Scalar::Bool, vec![], true).is_none());
    let plain = TaggedVariant::general(Scalar::I8, vec![Atom::I8(-3)], false).unwrap();
    assert_eq!(plain.fallback, InvalidData);
    assert_eq!(plain.decode(&[0xfd], 0, true), Ok(0));
    assert_eq!(plain.decode(&[0x03], 0, true), Err(InvalidData));
    let empty = TaggedVariant::new(Scalar::U64, vec![], InvalidData, false).unwrap();
    assert_eq!(empty.len(), 0);
    assert_eq!(empty.decode(&[0; 8], 0, true), Err(InvalidData));
}

#[test]
fn fallback_that_is_the_default() {
    let shape =
        TaggedVariant::<Failure>::with_default(Scalar::U16, vec![Atom::U16(7)], false).unwrap();
    assert_eq!(shape.fallback, Failure::BadShape);
    assert_eq!(shape.repr, Scalar::U16);
    assert!(!shape.prefers_le);
    assert_eq!(shape.decode(&[0, 7], 0, false), Ok(0));
    assert_eq!(shape.decode(&[0, 8], 0, false), Err(Failure::BadShape));
    let plain =
        TaggedVariant::<InvalidData>::with_default(Scalar::U8, vec![Atom::U8(1)], true).unwrap();
    assert_eq!(plain.fallback, InvalidData);
    assert_eq!(plain.decode(&[2], 0, true), Err(InvalidData));
    assert!(TaggedVariant::<Failure>::with_default(Scalar::Char, vec![], true).is_none());
    assert!(
        TaggedVariant::<Failure>::with_default(Scalar::U8, vec![Atom::I8(1)], true).is_none()
    );
}

#[test]
fn integers_and_raw_bytes_never_fail() {
    let record: Layout<Failure> = Layout::Composite(
        vec![
            scalar(Scalar::I16),
            Layout::bytes(3),
            Layout::Array(Box::new(scalar(Scalar::U32)), 2),
            scalar(Scalar::Unit),
            Layout::Composite(vec![scalar(Scalar::I8), scalar(Scalar::U64)], false),
        ],
        true,
    );
    assert_eq!(record.packed_size(), Some(2 + 3 + 8 + 0 + 9));
    let mut bytes = [0u8; 22];
    for seed in [0u8, 1, 0x55, 0x80, 0xff] {
        for (i, byte) in bytes.iter_mut().enumerate() {
            *byte = seed.wrapping_mul(31).wrapping_add((i as u8).wrapping_mul(97));
        }
        for little in [true, false] {
            let atoms = record.decode(&bytes, little).unwrap();
            assert!(record.holds(&atoms));
            assert_eq!(record.encode(&atoms, little), bytes);
        }
    }
    assert_eq!(
        record.try_from_le_bytes(&[0xff; 22]),
        Ok(vec![
            Atom::I16(-1),
            Atom::U8(0xff),
            Atom::U8(0xff),
            Atom::U8(0xff),
            Atom::U32(u32::MAX),
            Atom::U32(u32::MAX),
            Atom::Unit,
            Atom::I8(-1),
            Atom::U64(u64::MAX),
        ])
    );
}

#[test]
fn bytes_that_decode_encode_back() {
    for little in [true, false] {
        let bytes = outer().encode(&outer_value(), little);
        let atoms = outer().decode(&bytes, little).unwrap();
        assert_eq!(outer().encode(&atoms, little), bytes);
    }
    let word: Layout<Failure> =
        Layout::Composite(vec![scalar(Scalar::Usize), scalar(Scalar::Isize)], true);
    let bytes = [1, 2, 3, 4, 5, 6, 7, 8, 0xf8, 0xf7, 0xf6, 0xf5, 0xf4, 0xf3, 0xf2, 0xf1];
    if usize::BITS == 64 {
        for little in [true, false] {
            let atoms = word.decode(&bytes, little).unwrap();
            assert_eq!(word.encode(&atoms, little), bytes);
        }
    }
}

#[test]
fn well_formed_types() {
    assert!(outer().is_wf());
    assert!(color().is_wf());
    let mut broken = color();
    broken.discriminants.push(Atom::U16(1));
    assert!(!broken.is_wf());
    let nested: Layout<Failure> = Layout::Composite(
        vec![
            scalar(Scalar::U8),
            Layout::Array(Box::new(Layout::Variant(broken)), 0),
        ],
        true,
    );
    assert!(!nested.is_wf());
    let mut no_integer = color();
    no_integer.repr = Scalar::Bool;
    assert!(!no_integer.is_wf());
    let unit: Layout<InvalidData> = Layout::Composite(vec![], true);
    assert!(unit.is_wf());
}

#[test]
fn values_that_a_type_holds() {
    assert!(outer().holds(&outer_value()));
    let mut short = outer_value();
    short.pop();
    assert!(!outer().holds(&short));
    let mut long = outer_value();
    long.push(Atom::Unit);
    assert!(!outer().holds(&long));
    assert_eq!(outer().holds_at(&long, 0), Some(8));
    let mut wrong_kind = outer_value();
    wrong_kind[0] = Atom::I16(3);
    assert!(!outer().holds(&wrong_kind));
    let mut no_such_variant = outer_value();
    no_such_variant[3] = Atom::Variant(3);
    assert!(!outer().holds(&no_such_variant));
    let unit: Layout<InvalidData> = Layout::Composite(vec![], true);
    assert!(unit.holds(&[]));
    assert!(!unit.holds(&[Atom::Unit]));
    assert_eq!(unit.holds_at(&[Atom::Unit], 1), Some(1));
    assert_eq!(unit.holds_at(&[Atom::Unit], 2), None);
    assert!(scalar::<InvalidData>(Scalar::Unit).holds(&[Atom::Unit]));
    assert_eq!(inner().holds_at(&outer_value(), 1), Some(3));
    assert_eq!(inner().holds_at(&outer_value(), 2), None);
}

#[test]
fn zero_field_composite() {
    let unit: Layout<InvalidData> = Layout::Composite(vec![], true);
    assert_eq!(unit.packed_size(), Some(0));
    assert_eq!(unit.to_le_bytes(&[]), [0u8; 0]);
    assert_eq!(unit.to_be_bytes(&[]), [0u8; 0]);
    assert_eq!(unit.try_from_le_bytes(&[]), Ok(vec![]));
}

#[test]
fn raw_bytes_in_a_composite() {
    let record: Layout<InvalidData> = Layout::Composite(
        vec![scalar(Scalar::U16), Layout::bytes(3), scalar(Scalar::U16)],
        true,
    );
    let value = [
        Atom::U16(0x0102),
        Atom::U8(0xa),
        Atom::U8(0xb),
        Atom::U8(0xc),
        Atom::U16(0x0304),
    ];
    assert_eq!(record.to_le_bytes(&value), [2, 1, 0xa, 0xb, 0xc, 4, 3]);
    assert_eq!(record.to_be_bytes(&value), [1, 2, 0xa, 0xb, 0xc, 3, 4]);
    assert_eq!(
        record.try_from_be_bytes(&[1, 2, 0xa, 0xb, 0xc, 3, 4]),
        Ok(value.to_vec())
    );
}

#[test]
fn cursor_walks() {
    let mut out = vec![0x55];
    let next = inner().encode_at(&outer_value(), 1, true, &mut out);
    assert_eq!(next, 3);
    assert_eq!(out, [0x55, 1, 0x41, 0, 0, 0]);
    let mut atoms = vec![Atom::Unit];
    let next = inner().decode_at(&out, 1, true, &mut atoms);
    assert_eq!(next, Ok(6));
    assert_eq!(atoms, [Atom::Unit, Atom::Bool(true), Atom::Char('A')]);
}

#[test]
fn atoms_and_scalars() {
    assert_eq!(Atom::U32(1).kind(), Some(Scalar::U32));
    assert_eq!(Atom::Unit.kind(), Some(Scalar::Unit));
    assert_eq!(Atom::Variant(3).kind(), None);
    assert!(Scalar::Isize.is_integer());
    assert!(!Scalar::Char.is_integer());
    assert!(!Scalar::Bool.is_integer());
    assert!(!Scalar::Unit.is_integer());
    assert_eq!(Scalar::Char.packed_size(), 4);
    assert_eq!(Scalar::Usize.packed_size(), 8);
    let mut out = Vec::new();
    Atom::I32(-2).encode(false, &mut out);
    Atom::Variant(1).encode(false, &mut out);
    Atom::Unit.encode(true, &mut out);
    Atom::Bool(true).encode(true, &mut out);
    assert_eq!(out, [0xff, 0xff, 0xff, 0xfe, 1]);
    assert_eq!(
        Scalar::I32.decode::<InvalidData>(&out, 0, false),
        Ok(Atom::I32(-2))
    );
    assert_eq!(
        Scalar::Bool.decode::<InvalidData>(&out, 4, false),
        Ok(Atom::Bool(true))
    );
    assert_eq!(
        Scalar::Bool.decode::<InvalidData>(&out, 0, false),
        Err(InvalidData)
    );
    assert_eq!(
        Scalar::Char.decode::<Failure>(&out, 0, true),
        Err(Failure::BadChar)
    );
    assert_eq!(Scalar::Unit.decode::<InvalidData>(&out, 5, true), Ok(Atom::Unit));
    append_bytes(&mut out, &[1, 2]);
    assert_eq!(out, [0xff, 0xff, 0xff, 0xfe, 1, 1, 2]);
}
