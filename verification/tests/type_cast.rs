//! Conversion of plain Rust values into `PactType`s.

use pact::types::traits::IntoPact;
use pact::types::{Numeric, PactType, StringLike};

trait Numbers {
    type Number32;
    type Number64;
}

trait Strings {
    type Ref;
    type Vec;
    type Str;
}

struct Bar;

impl Numbers for Bar {
    type Number32 = u32;
    type Number64 = u64;
}

impl Strings for Bar {
    type Ref = &'static str;
    type Vec = Vec<u8>;
    type Str = String;
}

#[test]
fn type_cast_it_converts_numeric() {
    let tests = vec![
        (0_u8.into_pact(), Ok(PactType::Numeric(Numeric(0)))),
        (1_u16.into_pact(), Ok(PactType::Numeric(Numeric(1)))),
        (2_u32.into_pact(), Ok(PactType::Numeric(Numeric(2)))),
        (3_u64.into_pact(), Ok(PactType::Numeric(Numeric(3)))),
        (4_u128.into_pact(), Ok(PactType::Numeric(Numeric(4)))),
    ];
    for (lhs, rhs) in tests {
        assert_eq!(lhs, rhs);
    }
}

#[test]
fn type_cast_it_converts_string_like() {
    assert_eq!(
        "test".into_pact(),
        Ok(PactType::StringLike(StringLike(b"test"))),
    );

    let v: Vec<u8> = vec![116, 101, 115, 116];
    assert_eq!(v.into_pact(), Ok(PactType::StringLike(StringLike(b"test"))),);

    // Assertion for fixed hash types
    let h32 = b"0x01";
    let h64 = b"0x012345";
    let h128 = b"0x01234567891011";
    let h160 = b"0x012345678910111213";
    let h256 = b"0x012345678910111213141516171819";
    let h264 = b"0x0123456789101112131415161718192";
    let h512 = b"0x01234567891011121314151617181920212223242526272829303132333435";
    let h520 = b"0x012345678910111213141516171819202122232425262728293031323334353";

    let tests = vec![
        (h32.into_pact(), Ok(PactType::StringLike(StringLike(h32)))),
        (h64.into_pact(), Ok(PactType::StringLike(StringLike(h64)))),
        (h128.into_pact(), Ok(PactType::StringLike(StringLike(h128)))),
        (h160.into_pact(), Ok(PactType::StringLike(StringLike(h160)))),
        (h256.into_pact(), Ok(PactType::StringLike(StringLike(h256)))),
        (h264.into_pact(), Ok(PactType::StringLike(StringLike(h264)))),
        (h512.into_pact(), Ok(PactType::StringLike(StringLike(h512)))),
        (h520.into_pact(), Ok(PactType::StringLike(StringLike(h520)))),
    ];
    for (lhs, rhs) in tests {
        assert_eq!(lhs, rhs);
    }
}

#[test]
fn type_cast_it_converts_numeric_associated_types() {
    let n32: <Bar as Numbers>::Number32 = 10u32;
    let n64: <Bar as Numbers>::Number64 = 20u64;

    let tests = vec![
        (n32.into_pact(), Ok(PactType::Numeric(Numeric(10)))),
        (n64.into_pact(), Ok(PactType::Numeric(Numeric(20)))),
    ];
    for (lhs, rhs) in tests {
        assert_eq!(lhs, rhs);
    }
}

#[test]
fn type_cast_it_converts_string_like_associated_types() {
    let s1: <Bar as Strings>::Ref = "test1";
    let s2: <Bar as Strings>::Vec = vec![116, 101, 115, 116, 50];
    let s3: <Bar as Strings>::Str = "test3".to_string();

    let tests = vec![
        (
            s1.into_pact(),
            Ok(PactType::StringLike(StringLike(b"test1"))),
        ),
        (
            s2.into_pact(),
            Ok(PactType::StringLike(StringLike(b"test2"))),
        ),
        (
            s3.into_pact(),
            Ok(PactType::StringLike(StringLike(b"test3"))),
        ),
    ];
    for (lhs, rhs) in tests {
        assert_eq!(lhs, rhs);
    }
}

#[test]
fn it_refuses_numbers_beyond_64_bits() {
    assert_eq!((u64::MAX as u128 + 1).into_pact(), Err(()));
    assert_eq!((-1_i32).into_pact(), Err(()));
    assert_eq!(
        (u64::MAX as u128).into_pact(),
        Ok(PactType::Numeric(Numeric(u64::MAX)))
    );
}

#[test]
fn it_converts_byte_slices() {
    let bytes: &[u8] = &[1, 2, 3];
    assert_eq!(
        bytes.into_pact(),
        Ok(PactType::StringLike(StringLike(&[1, 2, 3])))
    );
    assert_eq!(
        "gr\u{fc}n".into_pact(),
        Ok(PactType::StringLike(StringLike(&[b'g', b'r', 0xc3, 0xbc, b'n'])))
    );
}
