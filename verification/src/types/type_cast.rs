//! Conversion of plain Rust values into `PactType`s.

use crate::types::base::{Numeric, PactType, StringLike, Value};
use core::convert::TryInto;
use vstd::prelude::*;
use vstd::std_specs::convert::TryIntoSpec;
use vstd::utf8::encode_utf8;

verus! {

/// A blanket trait for conversion into PactType
pub trait IntoPact<'a, I>: Sized {
    /// Whether the conversion that `into_pact` rests on keeps to its
    /// specification.
    spec fn obeys_into_pact() -> bool;

    /// Whether the value can be converted.
    spec fn convertible(self) -> bool;

    /// What `value` is, as a value of the contract language, for a result of
    /// `into_pact` on `self`.
    spec fn converts_to(self, value: Value) -> bool;

    fn into_pact(self) -> (r: Result<PactType<'a>, ()>)
        ensures
            Self::obeys_into_pact() ==> match r {
                Ok(p) => self.convertible() && self.converts_to(p@),
                Err(_) => !self.convertible(),
            },
    ;
}

/// Impl for all types that implement fallible conversion into u64
impl<'a, T: TryInto<u64> + Copy> IntoPact<'a, &T> for T {
    open spec fn obeys_into_pact() -> bool {
        T::obeys_try_into_spec()
    }

    open spec fn convertible(self) -> bool {
        self.try_into_spec() is Ok
    }

    open spec fn converts_to(self, value: Value) -> bool {
        self.try_into_spec() matches Ok(n) && value == Value::Numeric(n)
    }

    fn into_pact(self) -> (r: Result<PactType<'a>, ()>) {
        match self.try_into() {
            Ok(result) => Ok(PactType::Numeric(Numeric(result))),
            Err(_) => Err(()),
        }
    }
}

/// Impl for string slices: the bytes of the string in UTF-8.
impl<'a> IntoPact<'a, &str> for &'a str {
    open spec fn obeys_into_pact() -> bool {
        true
    }

    open spec fn convertible(self) -> bool {
        true
    }

    open spec fn converts_to(self, value: Value) -> bool {
        value == Value::StringLike(encode_utf8(self@))
    }

    fn into_pact(self) -> (r: Result<PactType<'a>, ()>) {
        Ok(PactType::StringLike(StringLike(self.as_bytes())))
    }
}

/// Impl for strings: the bytes of the string in UTF-8.
impl<'a> IntoPact<'a, &String> for &'a String {
    open spec fn obeys_into_pact() -> bool {
        true
    }

    open spec fn convertible(self) -> bool {
        true
    }

    open spec fn converts_to(self, value: Value) -> bool {
        value == Value::StringLike(encode_utf8(self@))
    }

    fn into_pact(self) -> (r: Result<PactType<'a>, ()>) {
        Ok(PactType::StringLike(StringLike(self.as_str().as_bytes())))
    }
}

/// Impl for byte slices
impl<'a> IntoPact<'a, &[u8]> for &'a [u8] {
    open spec fn obeys_into_pact() -> bool {
        true
    }

    open spec fn convertible(self) -> bool {
        true
    }

    open spec fn converts_to(self, value: Value) -> bool {
        value == Value::StringLike(self@)
    }

    fn into_pact(self) -> (r: Result<PactType<'a>, ()>) {
        Ok(PactType::StringLike(StringLike(self)))
    }
}

/// Impl for byte vectors
impl<'a> IntoPact<'a, &Vec<u8>> for &'a Vec<u8> {
    open spec fn obeys_into_pact() -> bool {
        true
    }

    open spec fn convertible(self) -> bool {
        true
    }

    open spec fn converts_to(self, value: Value) -> bool {
        value == Value::StringLike(self@)
    }

    fn into_pact(self) -> (r: Result<PactType<'a>, ()>) {
        Ok(PactType::StringLike(StringLike(self.as_slice())))
    }
}

/// Impl for byte arrays, such as fixed hashes
impl<'a, const N: usize> IntoPact<'a, &[u8; N]> for &'a [u8; N] {
    open spec fn obeys_into_pact() -> bool {
        true
    }

    open spec fn convertible(self) -> bool {
        true
    }

    open spec fn converts_to(self, value: Value) -> bool {
        value == Value::StringLike(self@)
    }

    fn into_pact(self) -> (r: Result<PactType<'a>, ()>) {
        Ok(PactType::StringLike(StringLike(self.as_slice())))
    }
}

} // verus!
