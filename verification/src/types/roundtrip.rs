//! Decoding undoes encoding, for every value, table and contract that the
//! binary format can hold.

use crate::types::base::{
    consumed, decoded, decoded_items, encoded, encoded_element, encoded_elements, header,
    length_byte, Malformed, Value,
};
use crate::types::bits::{lemma_reversed_involution, reversed};
use crate::types::contract::{decoded_contract, encoded_contract, ContractView, FormatFault};
use crate::types::data_table::{decoded_table, decoded_values, encoded_table, encoded_values};
use vstd::bytes::{lemma_auto_spec_u64_to_from_le_bytes, spec_u64_to_le_bytes};
use vstd::prelude::*;

verus! {

/// A number, or a byte string whose length fits the one length byte.
pub open spec fn primitive_fits(v: Value) -> bool {
    match v {
        Value::StringLike(s) => s.len() <= 255,
        Value::Numeric(_) => true,
        Value::List(_) => false,
    }
}

/// A value that the binary format can hold: a primitive that fits, or a list
/// of such primitives whose payload fits the one length byte.
pub open spec fn value_fits(v: Value) -> bool {
    match v {
        Value::List(l) => {
            &&& forall|i: int| 0 <= i < l.len() ==> primitive_fits(#[trigger] l[i])
            &&& encoded_elements(l).len() <= 255
        },
        _ => primitive_fits(v),
    }
}

/// A contract that the binary format can hold: at most 255 table entries,
/// each of which fits.
pub open spec fn contract_fits(c: ContractView) -> bool {
    &&& c.data_table.len() <= 255
    &&& forall|i: int| 0 <= i < c.data_table.len() ==> value_fits(#[trigger] c.data_table[i])
}

proof fn lemma_header_bytes(n: nat)
    requires
        n <= 255,
    ensures
        reversed(reversed(length_byte(n))) == n,
        reversed(0u8) == 0,
        reversed(reversed(1u8)) == 1,
        reversed(reversed(2u8)) == 2,
        reversed(reversed(8u8)) == 8,
{
    lemma_reversed_involution(length_byte(n));
    lemma_reversed_involution(1);
    lemma_reversed_involution(2);
    lemma_reversed_involution(8);
    assert(reversed(0u8) == 0) by (bit_vector);
}

/// A primitive that fits decodes from its encoding, whatever follows it, and
/// takes exactly the bytes of its encoding.
pub proof fn lemma_primitive_roundtrip(v: Value, tail: Seq<u8>)
    requires
        primitive_fits(v),
    ensures
        encoded(v) == encoded_element(v),
        encoded(v).len() >= 2,
        decoded(encoded(v) + tail) == Ok::<Value, Malformed>(v),
        consumed(encoded(v) + tail) == encoded(v).len(),
{
    let buf = encoded(v) + tail;
    match v {
        Value::StringLike(s) => {
            lemma_header_bytes(s.len());
            assert(buf.subrange(2, 2 + s.len() as int) =~= s);
        },
        Value::Numeric(n) => {
            lemma_header_bytes(8);
            lemma_auto_spec_u64_to_from_le_bytes();
            let bytes = spec_u64_to_le_bytes(n);
            assert forall|b: u8| reversed(reversed(b)) == b by {
                lemma_reversed_involution(b);
            }
            assert(buf.subrange(2, 10).map_values(|b: u8| reversed(b)) =~= bytes);
        },
        Value::List(_) => {},
    }
}

/// The payload of a list whose first element is `v` starts with the encoding
/// of `v`.
pub proof fn lemma_elements_front(v: Value, l: Seq<Value>)
    ensures
        encoded_elements(seq![v] + l) == encoded_element(v) + encoded_elements(l),
    decreases l.len(),
{
    let whole = seq![v] + l;
    if l.len() == 0 {
        assert(whole.drop_last() =~= Seq::<Value>::empty());
        assert(encoded_elements(whole.drop_last()) =~= Seq::<u8>::empty());
        assert(encoded_elements(whole) =~= encoded_element(v) + encoded_elements(l));
    } else {
        assert(whole.drop_last() =~= seq![v] + l.drop_last());
        lemma_elements_front(v, l.drop_last());
        assert(whole.last() == l.last());
        assert(encoded_elements(whole) =~= encoded_element(v) + encoded_elements(l));
    }
}

/// The elements of a list decode from its payload, whatever follows it.
pub proof fn lemma_elements_roundtrip(l: Seq<Value>, tail: Seq<u8>)
    requires
        forall|i: int| 0 <= i < l.len() ==> primitive_fits(#[trigger] l[i]),
    ensures
        decoded_items(encoded_elements(l) + tail, encoded_elements(l).len()) == Ok::<
            Seq<Value>,
            Malformed,
        >(l),
    decreases l.len(),
{
    if l.len() == 0 {
        assert(l =~= Seq::<Value>::empty());
    } else {
        let v = l[0];
        let rest = l.skip(1);
        assert(l =~= seq![v] + rest);
        lemma_elements_front(v, rest);
        let after = encoded_elements(rest) + tail;
        lemma_primitive_roundtrip(v, after);
        let buf = encoded_elements(l) + tail;
        assert(buf =~= encoded(v) + after);
        assert(buf.skip(encoded(v).len() as int) =~= after);
        assert forall|i: int| 0 <= i < rest.len() implies primitive_fits(#[trigger] rest[i]) by {
            assert(rest[i] == l[i + 1]);
        }
        lemma_elements_roundtrip(rest, tail);
        assert(header(buf) is Ok);
    }
}

/// **Round trip of a value.** A value that fits decodes from its encoding,
/// whatever follows it, and takes exactly the bytes of its encoding.
pub proof fn lemma_value_roundtrip(v: Value, tail: Seq<u8>)
    requires
        value_fits(v),
    ensures
        encoded(v).len() >= 2,
        decoded(encoded(v) + tail) == Ok::<Value, Malformed>(v),
        consumed(encoded(v) + tail) == encoded(v).len(),
{
    match v {
        Value::List(l) => {
            let payload = encoded_elements(l);
            lemma_header_bytes(payload.len());
            lemma_elements_roundtrip(l, tail);
            let buf = encoded(v) + tail;
            assert(buf.skip(2) =~= payload + tail);
        },
        _ => {
            lemma_primitive_roundtrip(v, tail);
        },
    }
}

/// The encodings of a run of values whose first is `v` start with the
/// encoding of `v`.
pub proof fn lemma_values_front(v: Value, l: Seq<Value>)
    ensures
        encoded_values(seq![v] + l) == encoded(v) + encoded_values(l),
    decreases l.len(),
{
    let whole = seq![v] + l;
    if l.len() == 0 {
        assert(whole.drop_last() =~= Seq::<Value>::empty());
        assert(encoded_values(whole.drop_last()) =~= Seq::<u8>::empty());
        assert(encoded_values(whole) =~= encoded(v) + encoded_values(l));
    } else {
        assert(whole.drop_last() =~= seq![v] + l.drop_last());
        lemma_values_front(v, l.drop_last());
        assert(whole.last() == l.last());
        assert(encoded_values(whole) =~= encoded(v) + encoded_values(l));
    }
}

/// A run of values that fit decodes from its encodings, whatever follows.
pub proof fn lemma_values_roundtrip(l: Seq<Value>, tail: Seq<u8>)
    requires
        forall|i: int| 0 <= i < l.len() ==> value_fits(#[trigger] l[i]),
    ensures
        decoded_values(encoded_values(l) + tail, l.len()) == Ok::<(Seq<Value>, nat), Malformed>(
            (l, encoded_values(l).len()),
        ),
    decreases l.len(),
{
    if l.len() == 0 {
        assert(l =~= Seq::<Value>::empty());
    } else {
        let v = l[0];
        let rest = l.skip(1);
        assert(l =~= seq![v] + rest);
        lemma_values_front(v, rest);
        let after = encoded_values(rest) + tail;
        lemma_value_roundtrip(v, after);
        let buf = encoded_values(l) + tail;
        assert(buf =~= encoded(v) + after);
        assert(buf.skip(encoded(v).len() as int) =~= after);
        assert forall|i: int| 0 <= i < rest.len() implies value_fits(#[trigger] rest[i]) by {
            assert(rest[i] == l[i + 1]);
        }
        lemma_values_roundtrip(rest, tail);
    }
}

/// **Round trip of a table.** A table of at most 255 values that fit decodes
/// from its encoding, whatever follows it.
pub proof fn lemma_table_roundtrip(t: Seq<Value>, tail: Seq<u8>)
    requires
        t.len() <= 255,
        forall|i: int| 0 <= i < t.len() ==> value_fits(#[trigger] t[i]),
    ensures
        decoded_table(encoded_table(t) + tail) == Ok::<(Seq<Value>, nat), Malformed>(
            (t, encoded_table(t).len()),
        ),
{
    lemma_header_bytes(t.len());
    lemma_values_roundtrip(t, tail);
    let buf = encoded_table(t) + tail;
    assert(buf.skip(1) =~= encoded_values(t) + tail);
}

/// **Round trip of a contract.** Decoding the encoding of a contract that
/// fits the binary format gives the contract back.
pub proof fn lemma_contract_roundtrip(c: ContractView)
    requires
        contract_fits(c),
    ensures
        decoded_contract(encoded_contract(c)) == Ok::<ContractView, FormatFault>(c),
{
    lemma_header_bytes(0);
    lemma_table_roundtrip(c.data_table, c.bytecode);
    let buf = encoded_contract(c);
    assert(buf.skip(1) =~= encoded_table(c.data_table) + c.bytecode);
    assert(buf.skip(1 + encoded_table(c.data_table).len() as int) =~= c.bytecode);
}

} // verus!
