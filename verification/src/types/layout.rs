//! What holds of the bit layout of opcodes: parsing undoes compiling.

use crate::interpreter::InterpErr;
use crate::types::opcode::{invert_bits, OpCode, OpComp, OpConj, OpIndices};
use vstd::prelude::*;

verus! {

/// An opcode that the layout can hold: the indices of a comparator fit a
/// nibble each.
pub open spec fn representable(op: OpCode) -> bool {
    match op {
        OpCode::COMP(comp) => comp.indices.lhs < 16 && comp.indices.rhs < 16,
        OpCode::CONJ(_) => true,
    }
}

proof fn lemma_comparator_bits(invert: u8, load: u8, op: u8)
    requires
        invert == 0 || invert == 0x10,
        load == 0 || load == 0x08,
        op < 4,
    ensures
        (invert | load | op) & 0x20 == 0,
        (invert | load | op) & 0x10 == invert,
        (invert | load | op) & 0x08 == load,
        (invert | load | op) & 0x07 == op,
{
    assert((invert == 0 || invert == 0x10) && (load == 0 || load == 0x08) && op < 4 ==> (invert
        | load | op) & 0x20 == 0 && (invert | load | op) & 0x10 == invert && (invert | load | op)
        & 0x08 == load && (invert | load | op) & 0x07 == op) by (bit_vector);
}

proof fn lemma_conjunction_bits(invert: u8, op: u8)
    requires
        invert == 0 || invert == 0x10,
        op < 3,
    ensures
        (0x20 | invert | op) & 0x20 != 0,
        (0x20 | invert | op) & 0x10 == invert,
        (0x20 | invert | op) & 0x0f == op,
{
    assert((invert == 0 || invert == 0x10) && op < 3 ==> (0x20 | invert | op) & 0x20 != 0 && (0x20
        | invert | op) & 0x10 == invert && (0x20 | invert | op) & 0x0f == op) by (bit_vector);
}

/// The index byte gives back the two indices that it was made of.
pub proof fn lemma_indices_roundtrip(indices: OpIndices)
    requires
        indices.lhs < 16,
        indices.rhs < 16,
    ensures
        OpIndices::of_bits(indices.bits()) == indices,
{
    let l = indices.lhs;
    let r = indices.rhs;
    assert(l < 16 && r < 16 ==> ((((l << 4u8) & 0xf0 | r & 0x0f) & 0xf0) >> 4u8) == l && ((l << 4u8)
        & 0xf0 | r & 0x0f) & 0x0f == r) by (bit_vector);
}

/// **Round trip of an opcode.** Parsing the bytes of a representable opcode,
/// whatever follows them, yields the opcode and takes exactly those bytes.
pub proof fn lemma_opcode_roundtrip(op: OpCode, tail: Seq<u8>)
    requires
        representable(op),
    ensures
        OpCode::parsed(op.compiled() + tail) == Ok::<Option<(OpCode, nat)>, InterpErr>(
            Some((op, op.compiled().len())),
        ),
{
    let stream = op.compiled() + tail;
    match op {
        OpCode::COMP(comp) => {
            lemma_comparator_bits(invert_bits(comp.invert), comp.load.bits(), comp.op.bits());
            lemma_indices_roundtrip(comp.indices);
            assert(stream[0] == op.bits());
            assert(stream[1] == comp.indices.bits());
            assert(OpComp::of_bits(comp.op.bits()) == Some(comp.op));
        },
        OpCode::CONJ(conj) => {
            lemma_conjunction_bits(invert_bits(conj.invert), conj.op.bits());
            assert(stream[0] == op.bits());
            assert(OpConj::of_bits(conj.op.bits()) == Some(conj.op));
        },
    }
}

} // verus!
