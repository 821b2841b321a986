//! What holds of every run of the interpreter.

use crate::interpreter::{
    compared, executed, interpreted, ran, related, stepped, verdict, InterpErr, State,
};
use crate::types::base::Value;
use crate::types::opcode::{Comparator, OpCode, OpComp, OP_COMP_MASK, OP_TYPE_MASK};
use vstd::prelude::*;

verus! {

/// **The type matrix.** What a comparator operation says of two values, by
/// their types: numbers take `EQ`, `GT` and `GTE`; strings take `EQ`; a
/// number or a string may be `IN` a list; a number and a string mismatch;
/// every other combination is a bad type operation.
pub proof fn lemma_type_matrix(op: OpComp, lhs: Value, rhs: Value)
    ensures
        lhs is Numeric && rhs is Numeric ==> related(op, lhs, rhs) == (match op {
            OpComp::EQ => Ok(lhs->Numeric_0 == rhs->Numeric_0),
            OpComp::GT => Ok(lhs->Numeric_0 > rhs->Numeric_0),
            OpComp::GTE => Ok(lhs->Numeric_0 >= rhs->Numeric_0),
            OpComp::IN => Err::<bool, InterpErr>(InterpErr::BadTypeOperation),
        }),
        lhs is StringLike && rhs is StringLike ==> related(op, lhs, rhs) == (match op {
            OpComp::EQ => Ok(lhs->StringLike_0 == rhs->StringLike_0),
            _ => Err::<bool, InterpErr>(InterpErr::BadTypeOperation),
        }),
        (lhs is Numeric && rhs is StringLike) || (lhs is StringLike && rhs is Numeric) ==> related(
            op,
            lhs,
            rhs,
        ) == Err::<bool, InterpErr>(InterpErr::TypeMismatch),
        !(lhs is List) && rhs is List ==> related(op, lhs, rhs) == (match op {
            OpComp::IN => Ok(rhs->List_0.contains(lhs)),
            _ => Err::<bool, InterpErr>(InterpErr::BadTypeOperation),
        }),
        lhs is List ==> related(op, lhs, rhs) == Err::<bool, InterpErr>(
            InterpErr::BadTypeOperation,
        ),
{
}

/// **Changing sides keeps the meaning.** A comparator other than `IN` says
/// of `lhs` and `rhs` what the comparator with its sides changed says of
/// `rhs` and `lhs`, be it a boolean or an error.
pub proof fn lemma_flipped_compares_alike(comparator: Comparator, lhs: Value, rhs: Value)
    requires
        comparator.op != OpComp::IN,
    ensures
        compared(comparator.flipped(), rhs, lhs) == compared(comparator, lhs, rhs),
{
    match (lhs, rhs) {
        (Value::StringLike(l), Value::StringLike(r)) => {
            assert((l == r) == (r == l));
        },
        _ => {},
    }
}

/// **Short circuit.** Where an assertion was false and a comparator follows
/// it without a joiner, the contract has failed: if the stream ends behind
/// that comparator or another opcode can be read there, the result is
/// `false`, whatever the bytes after that are.
pub proof fn lemma_short_circuit(
    input_data: Seq<Value>,
    user_data: Seq<Value>,
    source: Seq<u8>,
    comparator: Comparator,
)
    requires
        OpCode::parsed(source) == Ok::<Option<(OpCode, nat)>, InterpErr>(
            Some((OpCode::COMP(comparator), 2nat)),
        ),
        OpCode::parsed(source.skip(2)) is Ok,
    ensures
        ran(State::AssertionFalse, input_data, user_data, source) == Ok::<State, InterpErr>(
            State::Failed,
        ),
        verdict(State::Failed) == Ok::<bool, InterpErr>(false),
{
    let rest = source.skip(2);
    assert(stepped(State::AssertionFalse, OpCode::COMP(comparator), input_data, user_data) == Ok::<
        State,
        InterpErr,
    >(State::Failed));
    assert(ran(State::AssertionFalse, input_data, user_data, source) == ran(
        State::Failed,
        input_data,
        user_data,
        rest,
    ));
    match OpCode::parsed(rest) {
        Ok(Some((op, n))) => {
            assert(stepped(State::Failed, op, input_data, user_data) == Err::<State, InterpErr>(
                InterpErr::Refused,
            ));
        },
        _ => {},
    }
}

/// **Short circuit, from the start.** Byte code whose first assertion is
/// false and is followed by a comparator without a joiner gives `false`,
/// whatever follows the opcode that is read behind that comparator.
pub proof fn lemma_false_without_joiner(
    input_data: Seq<Value>,
    user_data: Seq<Value>,
    source: Seq<u8>,
    first: Comparator,
    second: Comparator,
)
    requires
        OpCode::parsed(source) == Ok::<Option<(OpCode, nat)>, InterpErr>(
            Some((OpCode::COMP(first), 2nat)),
        ),
        executed(State::Initial, first, input_data, user_data) == Ok::<State, InterpErr>(
            State::AssertionFalse,
        ),
        OpCode::parsed(source.skip(2)) == Ok::<Option<(OpCode, nat)>, InterpErr>(
            Some((OpCode::COMP(second), 2nat)),
        ),
        OpCode::parsed(source.skip(2).skip(2)) is Ok,
    ensures
        interpreted(input_data, user_data, source) == Ok::<bool, InterpErr>(false),
{
    lemma_short_circuit(input_data, user_data, source.skip(2), second);
}

/// **A conjunction cannot come first.** Byte code that starts with a
/// conjunction is refused with `UnexpectedOpCode` and the conjunction's byte.
pub proof fn lemma_leading_conjunction(
    input_data: Seq<Value>,
    user_data: Seq<Value>,
    source: Seq<u8>,
)
    requires
        OpCode::parsed(source) matches Ok(Some((op, _))) && op is CONJ,
    ensures
        interpreted(input_data, user_data, source) == Err::<bool, InterpErr>(
            InterpErr::UnexpectedOpCode(OpCode::parsed(source)->Ok_0->Some_0.0.bits()),
        ),
{
}

/// **A comparator needs its index byte.** Where the stream ends with the
/// byte of a comparator, the run fails with `UnexpectedEOI`, in whatever
/// state the machine is.
pub proof fn lemma_missing_index_byte(
    state: State,
    input_data: Seq<Value>,
    user_data: Seq<Value>,
    byte: u8,
)
    requires
        byte & OP_TYPE_MASK == 0,
        byte & OP_COMP_MASK <= 3,
    ensures
        ran(state, input_data, user_data, seq![byte]) == Err::<State, InterpErr>(
            InterpErr::UnexpectedEOI("expected index"),
        ),
{
}

} // verus!
