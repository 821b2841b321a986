//! The bytecode interpreter: a state machine that reads one opcode at a
//! time and keeps nothing but its state.

use crate::types::base::{views, PactType, Value};
use vstd::prelude::*;

pub use crate::types::opcode::{
    Comparator, Conjunction, OpCode, OpComp, OpConj, OpIndices, OpLoad,
};

pub mod laws;

verus! {

/// An interpreter error
#[derive(Debug, PartialEq)]
pub enum InterpErr {
    /// A comparison operator failed with incompatible types on LHS and RHS
    TypeMismatch,
    /// A comparison operator failed because it is not supported on the type
    BadTypeOperation,
    /// Unexpected end of input
    UnexpectedEOI(&'static str),
    /// Encountered an unexpected OpCode given the context
    UnexpectedOpCode(u8),
    /// Encountered an OpCode the interpreter does not support yet
    UnsupportedOpCode(&'static str),
    /// Encountered an invalid OpCode
    InvalidOpCode(u8),
    /// A referenced index in the data table does not exist
    MissingIndex(u8),
    /// Raised when trying to execute an OpCode from an interpreter which is in a failed state
    Refused,
}

/// The states of the interpreter.
#[derive(Debug, Clone, Copy, PartialEq)]
pub enum State {
    /// The initial interpreter state
    Initial,
    /// The last assertion evaluated as false
    AssertionFalse,
    /// The last assertion evaluated as true
    AssertionTrue,
    /// The last assertion was followed by a conjunction.
    /// The interpreter is awaiting the next OpCode as the RHS.
    Conjunctive {
        /// The last assertion truthiness (LHS of conjunction)
        last_assertion: bool,
        /// The conjunction to apply. <LHS> <conjunction> <RHS>
        conjunction: Conjunction,
    },
    /// The contract invariants were not maintained
    /// it has failed.
    Failed,
}

/// What a comparator operation says of two values, before inversion.
/// Numbers compare by `==`, `>` and `>=`; byte strings by `==` alone;
/// `IN` wants a list on the right and no list on the left.
pub open spec fn related(op: OpComp, lhs: Value, rhs: Value) -> Result<bool, InterpErr> {
    match (lhs, rhs) {
        (Value::Numeric(l), Value::Numeric(r)) => match op {
            OpComp::EQ => Ok(l == r),
            OpComp::GT => Ok(l > r),
            OpComp::GTE => Ok(l >= r),
            OpComp::IN => Err(InterpErr::BadTypeOperation),
        },
        (Value::StringLike(l), Value::StringLike(r)) => match op {
            OpComp::EQ => Ok(l == r),
            _ => Err(InterpErr::BadTypeOperation),
        },
        (Value::List(_), _) => Err(InterpErr::BadTypeOperation),
        (l, Value::List(r)) => match op {
            OpComp::IN => Ok(r.contains(l)),
            _ => Err(InterpErr::BadTypeOperation),
        },
        _ => Err(InterpErr::TypeMismatch),
    }
}

/// The result of a comparator on two values: what its operation says,
/// negated where the comparator inverts.
pub open spec fn compared(comparator: Comparator, lhs: Value, rhs: Value) -> Result<
    bool,
    InterpErr,
> {
    match related(comparator.op, lhs, rhs) {
        Ok(value) => Ok(value != comparator.invert),
        Err(e) => Err(e),
    }
}

/// The result of a conjunction on two booleans, negated where it inverts.
pub open spec fn conjoined(conjunction: Conjunction, lhs: bool, rhs: bool) -> bool {
    let value = match conjunction.op {
        OpConj::AND => lhs && rhs,
        OpConj::OR => lhs || rhs,
        OpConj::XOR => lhs != rhs,
    };
    value != conjunction.invert
}

fn bytes_equal(a: &[u8], b: &[u8]) -> (r: bool)
    ensures
        r == (a@ == b@),
{
    if a.len() != b.len() {
        return false;
    }
    let mut i: usize = 0;
    while i < a.len()
        invariant
            i <= a.len(),
            a@.len() == b@.len(),
            a@.take(i as int) == b@.take(i as int),
        decreases a.len() - i,
    {
        if a[i] != b[i] {
            return false;
        }
        i += 1;
        assert(a@.take(i as int) =~= a@.take(i - 1).push(a@[i - 1]));
        assert(b@.take(i as int) =~= b@.take(i - 1).push(b@[i - 1]));
    }
    assert(a@.take(i as int) =~= a@);
    assert(b@.take(i as int) =~= b@);
    true
}

/// Whether the primitive `item` equals `other`.
fn primitive_equals(item: &PactType, other: &PactType) -> (r: bool)
    requires
        !(item@ is List),
    ensures
        r == (item@ == other@),
{
    match (item, other) {
        (PactType::Numeric(l), PactType::Numeric(r)) => l.0 == r.0,
        (PactType::StringLike(l), PactType::StringLike(r)) => bytes_equal(l.0, r.0),
        _ => false,
    }
}

/// Whether the primitive `item` is an element of `list`.
fn list_contains(list: &Vec<PactType>, item: &PactType) -> (r: bool)
    requires
        !(item@ is List),
    ensures
        r == views(list@).contains(item@),
{
    let mut i: usize = 0;
    while i < list.len()
        invariant
            i <= list.len(),
            !(item@ is List),
            forall|k: int| 0 <= k < i ==> views(list@)[k] != item@,
        decreases list.len() - i,
    {
        if primitive_equals(item, &list[i]) {
            assert(views(list@)[i as int] == item@);
            return true;
        }
        i += 1;
    }
    false
}

/// Evaluate a comparator OpCode returning its result
pub fn eval_comparator(comparator: Comparator, lhs: &PactType, rhs: &PactType) -> (r: Result<
    bool,
    InterpErr,
>)
    ensures
        r == compared(comparator, lhs@, rhs@),
{
    let value = match (lhs, rhs) {
        (PactType::Numeric(l), PactType::Numeric(r)) => match comparator.op {
            OpComp::EQ => l.0 == r.0,
            OpComp::GT => l.0 > r.0,
            OpComp::GTE => l.0 >= r.0,
            _ => {
                return Err(InterpErr::BadTypeOperation);
            },
        },
        (PactType::StringLike(l), PactType::StringLike(r)) => match comparator.op {
            OpComp::EQ => bytes_equal(l.0, r.0),
            _ => {
                return Err(InterpErr::BadTypeOperation);
            },
        },
        (PactType::List(_), _) => {
            return Err(InterpErr::BadTypeOperation);
        },
        (l, PactType::List(r)) => match comparator.op {
            OpComp::IN => {
                proof {
                    crate::types::base::lemma_list_view(*r);
                }
                list_contains(r, l)
            },
            _ => {
                return Err(InterpErr::BadTypeOperation);
            },
        },
        _ => {
            return Err(InterpErr::TypeMismatch);
        },
    };

    // Apply inversion if required
    if comparator.invert {
        Ok(!value)
    } else {
        Ok(value)
    }
}

/// Evaluate a conjunction OpCode given an LHS and RHS boolean
pub fn eval_conjunction(conjunction: &Conjunction, lhs: bool, rhs: bool) -> (r: Result<
    bool,
    InterpErr,
>)
    ensures
        r == Ok::<bool, InterpErr>(conjoined(*conjunction, lhs, rhs)),
{
    let value = match conjunction.op {
        OpConj::AND => lhs && rhs,
        OpConj::OR => lhs || rhs,
        OpConj::XOR => lhs != rhs,
    };

    // Apply inversion if required
    if conjunction.invert {
        Ok(!value)
    } else {
        Ok(value)
    }
}

/// The state after a comparator: its operands are loaded, it is evaluated,
/// joined to the assertion before it where a conjunction waits, and the
/// outcome becomes the state.
pub open spec fn executed(
    state: State,
    comparator: Comparator,
    input_data: Seq<Value>,
    user_data: Seq<Value>,
) -> Result<State, InterpErr> {
    let lhs = comparator.indices.lhs;
    let rhs = comparator.indices.rhs;
    let rhs_data = match comparator.load {
        OpLoad::INPUT_VS_USER => user_data,
        OpLoad::INPUT_VS_INPUT => input_data,
    };
    if lhs >= input_data.len() {
        Err(InterpErr::MissingIndex(lhs))
    } else if rhs >= rhs_data.len() {
        Err(InterpErr::MissingIndex(rhs))
    } else {
        match compared(comparator, input_data[lhs as int], rhs_data[rhs as int]) {
            Err(e) => Err(e),
            Ok(value) => {
                let result = match state {
                    State::Conjunctive { last_assertion, conjunction } => conjoined(
                        conjunction,
                        last_assertion,
                        value,
                    ),
                    _ => value,
                };
                if result {
                    Ok(State::AssertionTrue)
                } else {
                    Ok(State::AssertionFalse)
                }
            },
        }
    }
}

/// The transition of the state machine on one opcode.
pub open spec fn stepped(state: State, op: OpCode, input_data: Seq<Value>, user_data: Seq<Value>)
    -> Result<State, InterpErr> {
    match (state, op) {
        (State::Failed, _) => Err(InterpErr::Refused),
        (State::AssertionFalse, OpCode::COMP(_)) => Ok(State::Failed),
        (State::AssertionTrue, OpCode::CONJ(conjunction)) => Ok(
            State::Conjunctive { last_assertion: true, conjunction },
        ),
        (State::AssertionFalse, OpCode::CONJ(conjunction)) => Ok(
            State::Conjunctive { last_assertion: false, conjunction },
        ),
        (_, OpCode::CONJ(_)) => Err(InterpErr::UnexpectedOpCode(op.bits())),
        (_, OpCode::COMP(comparator)) => executed(state, comparator, input_data, user_data),
    }
}

/// The state in which the interpreter stops on `source`, started in
/// `state`: at the end of the stream, or where the machine refuses to go on.
pub open spec fn ran(state: State, input_data: Seq<Value>, user_data: Seq<Value>, source: Seq<u8>)
    -> Result<State, InterpErr>
    decreases source.len(),
{
    match OpCode::parsed(source) {
        Err(e) => Err(e),
        Ok(None) => Ok(state),
        Ok(Some((op, n))) => match stepped(state, op, input_data, user_data) {
            Err(InterpErr::Refused) => Ok(state),
            Err(e) => Err(e),
            Ok(next) => ran(next, input_data, user_data, source.skip(n as int)),
        },
    }
}

/// What the state in which the interpreter stopped says of the contract.
pub open spec fn verdict(state: State) -> Result<bool, InterpErr> {
    match state {
        State::AssertionTrue => Ok(true),
        State::Failed | State::AssertionFalse => Ok(false),
        _ => Err(InterpErr::UnexpectedEOI("incomplete operation")),
    }
}

/// The result of a contract's byte code on input data and user data.
pub open spec fn interpreted(input_data: Seq<Value>, user_data: Seq<Value>, source: Seq<u8>)
    -> Result<bool, InterpErr> {
    match ran(State::Initial, input_data, user_data, source) {
        Err(e) => Err(e),
        Ok(state) => verdict(state),
    }
}

/// The interpreter.
/// It evaluates `OpCode`s maintaining the state of the current contract execution.
/// States provide transformations into other valid states and failure cases.
#[derive(Debug)]
pub struct Interpreter<'a> {
    state: State,
    input_data: &'a [PactType<'a>],
    user_data: &'a [PactType<'a>],
}

impl<'a> Interpreter<'a> {
    /// The state of the machine.
    pub closed spec fn state(&self) -> State {
        self.state
    }

    /// The values of the input data.
    pub closed spec fn input(&self) -> Seq<Value> {
        views(self.input_data@)
    }

    /// The values of the user data.
    pub closed spec fn user(&self) -> Seq<Value> {
        views(self.user_data@)
    }

    /// Return a new interpreter, ready for execution
    pub fn new(input_data: &'a [PactType<'a>], user_data: &'a [PactType<'a>]) -> (r: Self)
        ensures
            r.state() == State::Initial,
            r.input() == views(input_data@),
            r.user() == views(user_data@),
    {
        Interpreter { state: State::Initial, input_data, user_data }
    }

    /// The state the machine is in.
    pub fn current(&self) -> (r: State)
        ensures
            r == self.state(),
    {
        self.state
    }

    /// Executes a comparator OpCode
    /// This belongs to the interpreter state machine and will update state
    /// based on the outcome
    fn execute_comparator(&mut self, op: OpCode) -> (r: Result<(), InterpErr>)
        ensures
            final(self).input() == old(self).input(),
            final(self).user() == old(self).user(),
            match op {
                OpCode::COMP(comparator) => match executed(
                    old(self).state(),
                    comparator,
                    old(self).input(),
                    old(self).user(),
                ) {
                    Ok(next) => r == Ok::<(), InterpErr>(()) && final(self).state() == next,
                    Err(e) => r == Err::<(), InterpErr>(e) && final(self).state() == old(
                        self,
                    ).state(),
                },
                OpCode::CONJ(_) => r == Err::<(), InterpErr>(
                    InterpErr::UnexpectedOpCode(op.bits()),
                ) && final(self).state() == old(self).state(),
            },
    {
        match op {
            OpCode::COMP(comparator) => {
                // Gather left and right hand side values
                if comparator.indices.lhs as usize >= self.input_data.len() {
                    return Err(InterpErr::MissingIndex(comparator.indices.lhs));
                }
                let lhs = &self.input_data[comparator.indices.lhs as usize];
                let rhs_data = match comparator.load {
                    OpLoad::INPUT_VS_USER => self.user_data,
                    OpLoad::INPUT_VS_INPUT => self.input_data,
                };
                if comparator.indices.rhs as usize >= rhs_data.len() {
                    return Err(InterpErr::MissingIndex(comparator.indices.rhs));
                }
                let rhs = &rhs_data[comparator.indices.rhs as usize];

                let mut result = match eval_comparator(comparator, lhs, rhs) {
                    Ok(value) => value,
                    Err(e) => {
                        return Err(e);
                    },
                };

                // Evaluate the conjunction if necessary
                match self.state {
                    State::Conjunctive { last_assertion, conjunction } => {
                        result = match eval_conjunction(&conjunction, last_assertion, result) {
                            Ok(value) => value,
                            Err(e) => {
                                return Err(e);
                            },
                        };
                    },
                    _ => {},
                };

                // The assertions and operations upto this point have all been collapsed into
                // a single boolean.
                if result {
                    self.state = State::AssertionTrue;
                } else {
                    self.state = State::AssertionFalse;
                };
                Ok(())
            },
            _ => Err(InterpErr::UnexpectedOpCode(u8::from(op))),
        }
    }

    /// Interpreter state machine
    pub fn interpret(&mut self, op: OpCode) -> (r: Result<(), InterpErr>)
        ensures
            final(self).input() == old(self).input(),
            final(self).user() == old(self).user(),
            match stepped(old(self).state(), op, old(self).input(), old(self).user()) {
                Ok(next) => r == Ok::<(), InterpErr>(()) && final(self).state() == next,
                Err(e) => r == Err::<(), InterpErr>(e) && final(self).state() == old(self).state(),
            },
    {
        match self.state {
            // First op code must be a comparator
            State::Initial => self.execute_comparator(op),
            State::AssertionTrue => match op {
                OpCode::COMP(_) => self.execute_comparator(op),
                OpCode::CONJ(conjunction) => {
                    self.state =
                    State::Conjunctive { last_assertion: true, conjunction: conjunction };
                    Ok(())
                },
            },
            State::AssertionFalse => {
                match op {
                    // There is no continuation of the last assertion.
                    // This is now considered a failed clause, and hence the contract has failed
                    OpCode::COMP(_) => {
                        self.state = State::Failed;
                        Ok(())
                    },
                    // The conjunction will determine whether the contract has failed or succeeded
                    OpCode::CONJ(conjunction) => {
                        self.state =
                        State::Conjunctive { last_assertion: false, conjunction: conjunction };
                        Ok(())
                    },
                }
            },
            State::Conjunctive { last_assertion: _, conjunction: _ } => {
                // A Conjunction must be followed by a comparator
                match op {
                    OpCode::COMP(_) => self.execute_comparator(op),
                    OpCode::CONJ(_) => Err(InterpErr::UnexpectedOpCode(u8::from(op))),
                }
            },
            State::Failed => Err(InterpErr::Refused),
        }
    }
}

/// Interpret some byte code (`source`) with input data registers (`input_data`) and
/// user data registers (`user_data`).
/// Returns a boolean indicating whether the contract was validated or not,
/// An `InterpErr` is returned on a runtime error e.g. malformed byte code, missing data, invalid OpCode etc.
pub fn interpret(input_data: &[PactType], user_data: &[PactType], source: &[u8]) -> (r: Result<
    bool,
    InterpErr,
>)
    ensures
        r == interpreted(views(input_data@), views(user_data@), source@),
{
    let mut interpreter = Interpreter::new(input_data, user_data);
    let mut scanner = source;
    let mut done = false;
    while !done
        invariant
            interpreter.input() == views(input_data@),
            interpreter.user() == views(user_data@),
            ran(State::Initial, views(input_data@), views(user_data@), source@) == (if done {
                Ok::<State, InterpErr>(interpreter.state())
            } else {
                ran(interpreter.state(), views(input_data@), views(user_data@), scanner@)
            }),
        decreases scanner@.len() + (if done { 0int } else { 1int }),
    {
        match OpCode::parse(&mut scanner) {
            Err(e) => {
                return Err(e);
            },
            Ok(None) => {
                done = true;
            },
            Ok(Some(op)) => {
                match interpreter.interpret(op) {
                    Err(InterpErr::Refused) => {
                        done = true;
                    },
                    Err(err) => {
                        return Err(err);
                    },
                    Ok(_) => {},
                }
            },
        }
    }

    match interpreter.current() {
        State::AssertionTrue => Ok(true),
        State::Failed | State::AssertionFalse => Ok(false),
        // Any other state is an Unexpected end of input
        _ => Err(InterpErr::UnexpectedEOI("incomplete operation")),
    }
}

} // verus!
