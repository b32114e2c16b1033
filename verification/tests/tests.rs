use packbytes::error::{InvalidBool, InvalidChar, InvalidData};
use packbytes::layout::Layout;
use packbytes::scalar::{Atom, Scalar};
use packbytes::variant::TaggedVariant;
use packbytes::{ByteArray, FromBytes};

#[derive(Debug, Clone, Copy, PartialEq, Eq)]
#[allow(dead_code)]
enum CustomError {
    WrongTestEnum,
    SomethingElse,
}

impl From<InvalidChar> for CustomError {
    fn from(_: InvalidChar) -> Self {
        CustomError::SomethingElse
    }
}

impl From<InvalidBool> for CustomError {
    fn from(_: InvalidBool) -> Self {
        CustomError::SomethingElse
    }
}

/// `struct Test { foo: u32, bar: u16 }`, which prefers big endian.
fn test() -> Layout<InvalidData> {
    Layout::Composite(
        vec![Layout::Scalar(Scalar::U32), Layout::Scalar(Scalar::U16)],
        false,
    )
}

/// `struct Nameless(u16, i32)`.
fn nameless() -> Layout<InvalidData> {
    Layout::Composite(
        vec![Layout::Scalar(Scalar::U16), Layout::Scalar(Scalar::I32)],
        true,
    )
}

/// `struct Unit`.
fn unit() -> Layout<InvalidData> {
    Layout::Composite(vec![], true)
}

/// `enum TestEnum { Foo = 0x2, Bar = 0x12 }` with its own error.
fn test_enum() -> Layout<CustomError> {
    Layout::Variant(
        TaggedVariant::new(
            Scalar::U8,
            vec![Atom::U8(0x2), Atom::U8(0x12)],
            CustomError::WrongTestEnum,
            true,
        )
        .unwrap(),
    )
}

/// `enum FatTestEnum { Foo = 0x2, Bar = 0x12 }`, packed as a `u32`.
fn fat_test_enum() -> Layout<InvalidData> {
    Layout::Variant(
        TaggedVariant::general(Scalar::U32, vec![Atom::U32(0x2), Atom::U32(0x12)], true).unwrap(),
    )
}

/// `struct WithArray { foo: u8, arr: [i16; 3], bar: u8 }`.
fn with_array() -> Layout<InvalidData> {
    Layout::Composite(
        vec![
            Layout::Scalar(Scalar::U8),
            Layout::Array(Box::new(Layout::Scalar(Scalar::I16)), 3),
            Layout::Scalar(Scalar::U8),
        ],
        true,
    )
}

const FOO: Atom = Atom::Variant(0);
const BAR: Atom = Atom::Variant(1);

#[test]
fn struct_test() {
    let bytes = [0x3, 0, 0, 0, 0x42, 0];
    let bebytes = [0, 0, 0, 0x3, 0, 0x42];
    assert_eq!(
        test().try_from_le_bytes(&bytes),
        Ok(vec![Atom::U32(0x3), Atom::U16(0x42)])
    );
    assert_eq!(
        test().try_from_bytes(&bytes),
        Ok(vec![Atom::U32(0x3000000), Atom::U16(0x4200)])
    );
    assert_eq!(
        test().to_le_bytes(&[Atom::U32(0x3), Atom::U16(0x42)]),
        bytes
    );
    assert_eq!(
        test().to_bytes(&[Atom::U32(0x3), Atom::U16(0x42)]),
        bebytes
    );
    assert_eq!(
        nameless().try_from_le_bytes(&bytes),
        Ok(vec![Atom::U16(0x3), Atom::I32(0x420000)])
    );
    assert_eq!(
        bytes.to_vec(),
        nameless().to_le_bytes(&[Atom::U16(0x3), Atom::I32(0x420000)])
    );
    assert_eq!(unit().packed_size(), Some(0));
    assert_eq!(<<() as FromBytes>::Bytes as ByteArray>::SIZE, 0);
}

#[test]
fn enum_test() {
    assert_eq!(test_enum().to_le_bytes(&[FOO]), [0x2]);
    assert_eq!(test_enum().to_be_bytes(&[BAR]), [0x12]);
    assert_eq!(fat_test_enum().to_le_bytes(&[FOO]), [0x2, 0, 0, 0]);
    assert_eq!(fat_test_enum().to_be_bytes(&[BAR]), [0, 0, 0, 0x12]);
    assert_eq!(
        Ok(vec![FOO]),
        fat_test_enum().try_from_le_bytes(&[0x2, 0, 0, 0])
    );
    assert_eq!(
        Err(InvalidData),
        fat_test_enum().try_from_le_bytes(&[0x3, 0, 0, 0])
    );
}

#[test]
fn custom_error() {
    assert_eq!(
        Err(CustomError::WrongTestEnum),
        test_enum().try_from_le_bytes(&[0x3])
    );
}

#[test]
fn array_test() {
    let bytes = [0x3, 0x5, 0, 0x7, 0, 0x11, 0, 0x42];
    assert_eq!(
        with_array().try_from_le_bytes(&bytes),
        Ok(vec![
            Atom::U8(0x3),
            Atom::I16(0x5),
            Atom::I16(0x7),
            Atom::I16(0x11),
            Atom::U8(0x42)
        ])
    );
    assert_eq!(
        bytes.to_vec(),
        with_array().to_le_bytes(&[
            Atom::U8(0x3),
            Atom::I16(0x5),
            Atom::I16(0x7),
            Atom::I16(0x11),
            Atom::U8(0x42)
        ])
    );
}
