//! The opcodes of the bytecode and their bit layout.
//!
//! An opcode is one byte. Bit 5 tells a conjunction from a comparator and
//! bit 4 inverts the result. A comparator keeps its load mode in bit 3 and
//! its operation in bits 2 to 0, and is followed by one byte of indices:
//! the left one in the high nibble, the right one in the low nibble. A
//! conjunction keeps its operation in bits 3 to 0.

use crate::interpreter::InterpErr;
use crate::parser::ast;
use vstd::prelude::*;
use vstd::slice::slice_subrange;
use vstd::std_specs::convert::FromSpecImpl;

verus! {

// OpCode masks
pub const OP_TYPE_MASK: u8 = 0b0010_0000;

pub const OP_INVERT_MASK: u8 = 0b0001_0000;

pub const OP_LOAD_MASK: u8 = 0b0000_1000;

pub const OP_CONJ_MASK: u8 = 0b0000_1111;

pub const OP_COMP_MASK: u8 = 0b0000_0111;

pub const INDEX_LHS_MASK: u8 = 0b1111_0000;

pub const INDEX_RHS_MASK: u8 = 0b0000_1111;

pub const INDEX_LHS_SHIFT: u8 = 4;

/// Indicates whether the source of a load is an `Input`
/// or stored on the compiled `DataTable`
#[derive(Debug, Clone, Copy, PartialEq)]
pub enum LoadSource {
    Input,
    DataTable,
}

/// A source for a subject for comparison
#[derive(Debug, Clone, Copy, PartialEq)]
pub struct SubjectSource {
    pub load_source: LoadSource,
    pub index: u8,
}

/// Data structure which breaks down the anatomy of an OpCode
#[derive(Debug, Clone, Copy, PartialEq)]
pub enum OpCode {
    COMP(Comparator),
    CONJ(Conjunction),
}

/// Comparator OpCode Structure
#[derive(Debug, Clone, Copy, PartialEq)]
pub struct Comparator {
    pub load: OpLoad,
    pub op: OpComp,
    pub indices: OpIndices,
    pub invert: bool,
}

/// Conjunction OpCode Structure
#[derive(Debug, Clone, Copy, PartialEq)]
pub struct Conjunction {
    pub op: OpConj,
    pub invert: bool,
}

/// The indices of the two operands of a comparator
#[derive(Debug, Clone, Copy, PartialEq)]
pub struct OpIndices {
    pub lhs: u8,
    pub rhs: u8,
}

/// Enum to determine whether a comparator OpCode
/// is comparing input to datatable or input to input
#[allow(non_camel_case_types)]
#[derive(Debug, Clone, Copy, PartialEq)]
pub enum OpLoad {
    INPUT_VS_USER,
    INPUT_VS_INPUT,
}

/// Enum of avaliable comparator OpCode operations
#[allow(non_camel_case_types)]
#[derive(Debug, Clone, Copy, PartialEq)]
pub enum OpComp {
    EQ,
    GT,
    GTE,
    IN,
}

/// Enum of avaliable conjunction OpCode operations
#[allow(non_camel_case_types)]
#[derive(Debug, Clone, Copy, PartialEq)]
pub enum OpConj {
    AND,
    OR,
    XOR,
}

/// The bit that the invert flag sets in an opcode byte.
pub open spec fn invert_bits(invert: bool) -> u8 {
    if invert {
        OP_INVERT_MASK
    } else {
        0
    }
}

impl OpLoad {
    /// The bit of the load mode in an opcode byte.
    pub open spec fn bits(self) -> u8 {
        match self {
            OpLoad::INPUT_VS_USER => 0,
            OpLoad::INPUT_VS_INPUT => OP_LOAD_MASK,
        }
    }
}

impl OpComp {
    /// The number of the comparator operation.
    pub open spec fn bits(self) -> u8 {
        match self {
            OpComp::EQ => 0,
            OpComp::GT => 1,
            OpComp::GTE => 2,
            OpComp::IN => 3,
        }
    }

    /// The comparator operation with the number `n`, if there is one.
    pub open spec fn of_bits(n: u8) -> Option<OpComp> {
        if n == 0 {
            Some(OpComp::EQ)
        } else if n == 1 {
            Some(OpComp::GT)
        } else if n == 2 {
            Some(OpComp::GTE)
        } else if n == 3 {
            Some(OpComp::IN)
        } else {
            None
        }
    }
}

impl OpConj {
    /// The number of the conjunction operation.
    pub open spec fn bits(self) -> u8 {
        match self {
            OpConj::AND => 0,
            OpConj::OR => 1,
            OpConj::XOR => 2,
        }
    }

    /// The conjunction operation with the number `n`, if there is one.
    pub open spec fn of_bits(n: u8) -> Option<OpConj> {
        if n == 0 {
            Some(OpConj::AND)
        } else if n == 1 {
            Some(OpConj::OR)
        } else if n == 2 {
            Some(OpConj::XOR)
        } else {
            None
        }
    }
}

impl OpIndices {
    /// The index byte: `lhs` in the high nibble, `rhs` in the low nibble.
    pub open spec fn bits(self) -> u8 {
        (self.lhs << INDEX_LHS_SHIFT) & INDEX_LHS_MASK | self.rhs & INDEX_RHS_MASK
    }

    /// The indices that an index byte holds.
    pub open spec fn of_bits(b: u8) -> OpIndices {
        OpIndices { lhs: (b & INDEX_LHS_MASK) >> INDEX_LHS_SHIFT, rhs: b & INDEX_RHS_MASK }
    }
}

impl OpCode {
    /// The opcode byte, without the index byte of a comparator.
    pub open spec fn bits(self) -> u8 {
        match self {
            OpCode::COMP(comp) => invert_bits(comp.invert) | comp.load.bits() | comp.op.bits(),
            OpCode::CONJ(conj) => OP_TYPE_MASK | invert_bits(conj.invert) | conj.op.bits(),
        }
    }

    /// The bytes of the opcode: the opcode byte and, for a comparator, the
    /// index byte.
    pub open spec fn compiled(self) -> Seq<u8> {
        match self {
            OpCode::COMP(comp) => seq![self.bits(), comp.indices.bits()],
            OpCode::CONJ(_) => seq![self.bits()],
        }
    }

    /// The opcode at the start of `stream` and the number of bytes it takes;
    /// `None` at the end of the stream.
    pub open spec fn parsed(stream: Seq<u8>) -> Result<Option<(OpCode, nat)>, InterpErr> {
        if stream.len() == 0 {
            Ok(None)
        } else {
            let index = stream[0];
            let invert = (index & OP_INVERT_MASK) == OP_INVERT_MASK;
            if index & OP_TYPE_MASK == 0 {
                let load = if index & OP_LOAD_MASK == 0 {
                    OpLoad::INPUT_VS_USER
                } else {
                    OpLoad::INPUT_VS_INPUT
                };
                match OpComp::of_bits(index & OP_COMP_MASK) {
                    None => Err(InterpErr::InvalidOpCode(index)),
                    Some(op) => if stream.len() < 2 {
                        Err(InterpErr::UnexpectedEOI("expected index"))
                    } else {
                        Ok(
                            Some(
                                (
                                    OpCode::COMP(
                                        Comparator {
                                            load,
                                            op,
                                            indices: OpIndices::of_bits(stream[1]),
                                            invert,
                                        },
                                    ),
                                    2nat,
                                ),
                            ),
                        )
                    },
                }
            } else {
                match OpConj::of_bits(index & OP_CONJ_MASK) {
                    None => Err(InterpErr::InvalidOpCode(index)),
                    Some(op) => Ok(Some((OpCode::CONJ(Conjunction { op, invert }), 1nat))),
                }
            }
        }
    }
}

impl From<OpLoad> for u8 {
    fn from(load: OpLoad) -> (r: u8) {
        match load {
            OpLoad::INPUT_VS_USER => 0,
            OpLoad::INPUT_VS_INPUT => OP_LOAD_MASK,
        }
    }
}

impl FromSpecImpl<OpLoad> for u8 {
    open spec fn obeys_from_spec() -> bool {
        true
    }

    open spec fn from_spec(load: OpLoad) -> u8 {
        load.bits()
    }
}

impl From<OpComp> for u8 {
    fn from(op: OpComp) -> (r: u8) {
        match op {
            OpComp::EQ => 0,
            OpComp::GT => 1,
            OpComp::GTE => 2,
            OpComp::IN => 3,
        }
    }
}

impl FromSpecImpl<OpComp> for u8 {
    open spec fn obeys_from_spec() -> bool {
        true
    }

    open spec fn from_spec(op: OpComp) -> u8 {
        op.bits()
    }
}

impl From<OpConj> for u8 {
    fn from(op: OpConj) -> (r: u8) {
        match op {
            OpConj::AND => 0,
            OpConj::OR => 1,
            OpConj::XOR => 2,
        }
    }
}

impl FromSpecImpl<OpConj> for u8 {
    open spec fn obeys_from_spec() -> bool {
        true
    }

    open spec fn from_spec(op: OpConj) -> u8 {
        op.bits()
    }
}

impl From<OpIndices> for u8 {
    fn from(indices: OpIndices) -> (r: u8) {
        (indices.lhs << INDEX_LHS_SHIFT) & INDEX_LHS_MASK | indices.rhs & INDEX_RHS_MASK
    }
}

impl FromSpecImpl<OpIndices> for u8 {
    open spec fn obeys_from_spec() -> bool {
        true
    }

    open spec fn from_spec(indices: OpIndices) -> u8 {
        indices.bits()
    }
}

/// Convert an OpCode into its u8 bytecode
impl From<OpCode> for u8 {
    fn from(op: OpCode) -> (r: u8) {
        match op {
            OpCode::COMP(comp) => {
                let invert_u8: u8 = if comp.invert {
                    OP_INVERT_MASK
                } else {
                    0
                };
                let load_u8: u8 = u8::from(comp.load);
                let comp_u8: u8 = u8::from(comp.op);
                invert_u8 | load_u8 | comp_u8
            },
            OpCode::CONJ(conj) => {
                let invert_u8: u8 = if conj.invert {
                    OP_INVERT_MASK
                } else {
                    0
                };
                let conj_u8: u8 = u8::from(conj.op);
                OP_TYPE_MASK | invert_u8 | conj_u8
            },
        }
    }
}

impl FromSpecImpl<OpCode> for u8 {
    open spec fn obeys_from_spec() -> bool {
        true
    }

    open spec fn from_spec(op: OpCode) -> u8 {
        op.bits()
    }
}

impl OpCode {
    /// Compiles the OpCode into one or more bytes at the end of `stream`.
    pub fn compile(self, stream: &mut Vec<u8>)
        ensures
            final(stream)@ == old(stream)@ + self.compiled(),
    {
        stream.push(u8::from(self));
        match self {
            OpCode::COMP(comparator) => stream.push(u8::from(comparator.indices)),
            _ => {},
        };
        assert(stream@ =~= old(stream)@ + self.compiled());
    }

    /// Return the next OpCode by parsing an input byte stream, and advance
    /// the stream behind it. At the end of the stream the result is `None`.
    /// Where the opcode is refused, the stream has lost its first byte.
    pub fn parse<'a>(stream: &mut &'a [u8]) -> (r: Result<Option<Self>, InterpErr>)
        ensures
            match OpCode::parsed(old(stream)@) {
                Ok(None) => {
                    &&& r == Ok::<Option<OpCode>, InterpErr>(None)
                    &&& final(stream)@ == old(stream)@
                },
                Ok(Some((op, n))) => {
                    &&& r == Ok::<Option<OpCode>, InterpErr>(Some(op))
                    &&& final(stream)@ == old(stream)@.skip(n as int)
                },
                Err(e) => {
                    &&& r == Err::<Option<OpCode>, InterpErr>(e)
                    &&& final(stream)@ == old(stream)@.skip(1)
                },
            },
    {
        if stream.len() == 0 {
            // This is a valid EOI
            return Ok(None);
        }
        let index: u8 = stream[0];
        *stream = slice_subrange(*stream, 1, stream.len());

        // Check if the invert Bit is Set
        let invert = (index & OP_INVERT_MASK) == OP_INVERT_MASK;

        // Check the Type of OpCode (0 ? comparator : conjunction)
        if index & OP_TYPE_MASK == 0 {
            // Comparator
            // Determine load type
            let load = if index & OP_LOAD_MASK == 0 {
                OpLoad::INPUT_VS_USER
            } else {
                OpLoad::INPUT_VS_INPUT
            };
            // Determine comparator operation
            let n: u8 = index & OP_COMP_MASK;
            let op = if n == 0 {
                OpComp::EQ
            } else if n == 1 {
                OpComp::GT
            } else if n == 2 {
                OpComp::GTE
            } else if n == 3 {
                OpComp::IN
            } else {
                return Err(InterpErr::InvalidOpCode(index));
            };
            // Load indices from the stream
            if stream.len() == 0 {
                return Err(InterpErr::UnexpectedEOI("expected index"));
            }
            let indices: u8 = stream[0];
            *stream = slice_subrange(*stream, 1, stream.len());
            assert(stream@ =~= old(stream)@.skip(2));

            // form and return the comparator OpCode
            Ok(
                Some(
                    OpCode::COMP(
                        Comparator {
                            load: load,
                            op: op,
                            indices: OpIndices {
                                lhs: (indices & INDEX_LHS_MASK) >> INDEX_LHS_SHIFT,
                                rhs: indices & INDEX_RHS_MASK,
                            },
                            invert: invert,
                        },
                    ),
                ),
            )
        } else {
            // Conjunction
            let n: u8 = index & OP_CONJ_MASK;
            let op = if n == 0 {
                OpConj::AND
            } else if n == 1 {
                OpConj::OR
            } else if n == 2 {
                OpConj::XOR
            } else {
                return Err(InterpErr::InvalidOpCode(index));
            };
            // form and return the conjunction OpCode
            Ok(Some(OpCode::CONJ(Conjunction { op: op, invert: invert })))
        }
    }
}

impl Comparator {
    /// The comparator that the subjects' sources ask for: the load mode, the
    /// indices, and the sides changed where the left subject is a constant.
    pub open spec fn loaded(self, lhs: SubjectSource, rhs: SubjectSource) -> Comparator {
        let placed = Comparator {
            load: match (lhs.load_source, rhs.load_source) {
                (LoadSource::Input, LoadSource::Input) => OpLoad::INPUT_VS_INPUT,
                _ => OpLoad::INPUT_VS_USER,
            },
            indices: OpIndices { lhs: lhs.index, rhs: rhs.index },
            ..self
        };
        if lhs.load_source is DataTable {
            placed.flipped()
        } else {
            placed
        }
    }

    /// The comparator with its sides changed: `>` becomes an inverted `>=`
    /// and `>=` an inverted `>`, so that it says the same of the operands
    /// in the other order.
    pub open spec fn flipped(self) -> Comparator {
        Comparator {
            indices: OpIndices { lhs: self.indices.rhs, rhs: self.indices.lhs },
            op: match self.op {
                OpComp::GT => OpComp::GTE,
                OpComp::GTE => OpComp::GT,
                op => op,
            },
            invert: match self.op {
                OpComp::GT | OpComp::GTE => !self.invert,
                _ => self.invert,
            },
            ..self
        }
    }

    /// The comparator under an imperative: `MustNotBe` toggles `invert`.
    pub open spec fn under(self, imperative: ast::Imperative) -> Comparator {
        match imperative {
            ast::Imperative::MustBe => self,
            ast::Imperative::MustNotBe => Comparator { invert: !self.invert, ..self },
        }
    }

    /// The comparator that a comparator of the surface syntax starts from:
    /// `<` is an inverted `>=` and `<=` an inverted `>`.
    pub open spec fn of_ast(comparator: ast::Comparator) -> Comparator {
        let (op, invert) = match comparator {
            ast::Comparator::Equal => (OpComp::EQ, false),
            ast::Comparator::GreaterThan => (OpComp::GT, false),
            ast::Comparator::GreaterThanOrEqual => (OpComp::GTE, false),
            ast::Comparator::LessThan => (OpComp::GTE, true),
            ast::Comparator::LessThanOrEqual => (OpComp::GT, true),
            ast::Comparator::OneOf => (OpComp::IN, false),
        };
        Comparator {
            load: OpLoad::INPUT_VS_USER,
            op,
            indices: OpIndices { lhs: 0, rhs: 0 },
            invert,
        }
    }

    /// A comparator of input 0 with constant 0, not inverted.
    pub fn new(op: OpComp) -> (r: Self)
        ensures
            r == (Comparator {
                load: OpLoad::INPUT_VS_USER,
                op,
                indices: OpIndices { lhs: 0, rhs: 0 },
                invert: false,
            }),
    {
        Comparator {
            load: OpLoad::INPUT_VS_USER,
            op: op,
            indices: OpIndices { lhs: 0, rhs: 0 },
            invert: false,
        }
    }

    /// Update the `load` field
    pub fn load(self, load: OpLoad) -> (r: Self)
        ensures
            r == (Comparator { load, ..self }),
    {
        Comparator { load, ..self }
    }

    /// Update the `indices` field
    pub fn indices(self, lhs: u8, rhs: u8) -> (r: Self)
        ensures
            r == (Comparator { indices: OpIndices { lhs, rhs }, ..self }),
    {
        Comparator { indices: OpIndices { lhs, rhs }, ..self }
    }

    /// Set the `invert` field
    pub fn invert(self) -> (r: Self)
        ensures
            r == (Comparator { invert: true, ..self }),
    {
        Comparator { invert: true, ..self }
    }

    /// Update the `load` field and the indices from the two subjects.
    /// If lhs = `DataTable` and rhs = `Input`, the sides are changed so that
    /// lhs = `Input` and rhs = `DataTable`, as the encoding wants it.
    pub fn loads_from_subjects(self, lhs: SubjectSource, rhs: SubjectSource) -> (r: Self)
        ensures
            r == self.loaded(lhs, rhs),
    {
        // Determine the Load Order
        let (load, flip) = match (lhs.load_source, rhs.load_source) {
            (LoadSource::Input, LoadSource::Input) => (OpLoad::INPUT_VS_INPUT, false),
            (LoadSource::Input, LoadSource::DataTable) => (OpLoad::INPUT_VS_USER, false),
            (LoadSource::DataTable, LoadSource::Input) => (OpLoad::INPUT_VS_USER, true),
            (LoadSource::DataTable, LoadSource::DataTable) => (OpLoad::INPUT_VS_USER, true),
        };

        // Apply the load and indices
        let placed = self.load(load).indices(lhs.index, rhs.index);

        // Apply a flip if neccessary
        if flip {
            placed.flip_indices()
        } else {
            placed
        }
    }

    /// Flips the lhs and rhs indices and applies any necessary changes to the `op` and
    /// `invert` parameters to keep the expressions consistent
    pub fn flip_indices(self) -> (r: Self)
        ensures
            r == self.flipped(),
    {
        let indices = OpIndices { lhs: self.indices.rhs, rhs: self.indices.lhs };
        let (op, invert) = match self.op {
            OpComp::EQ => (self.op, self.invert),
            OpComp::IN => (self.op, self.invert),
            OpComp::GT => (OpComp::GTE, !self.invert),
            OpComp::GTE => (OpComp::GT, !self.invert),
        };
        Comparator { load: self.load, op, indices, invert }
    }

    /// Applies an `ast::Imperative` to the `invert` parameter
    pub fn apply_imperative(self, imperative: &ast::Imperative) -> (r: Self)
        ensures
            r == self.under(*imperative),
    {
        match imperative {
            ast::Imperative::MustBe => self,
            ast::Imperative::MustNotBe => Comparator { invert: !self.invert, ..self },
        }
    }
}

impl From<&ast::Comparator> for Comparator {
    /// Creates a `Comparator` from an `ast::Comparator` type
    fn from(comparator: &ast::Comparator) -> (r: Self) {
        match comparator {
            ast::Comparator::Equal => Comparator::new(OpComp::EQ),
            ast::Comparator::GreaterThan => Comparator::new(OpComp::GT),
            ast::Comparator::GreaterThanOrEqual => Comparator::new(OpComp::GTE),
            ast::Comparator::LessThan => Comparator::new(OpComp::GTE).invert(),
            ast::Comparator::LessThanOrEqual => Comparator::new(OpComp::GT).invert(),
            ast::Comparator::OneOf => Comparator::new(OpComp::IN),
        }
    }
}

impl FromSpecImpl<&ast::Comparator> for Comparator {
    open spec fn obeys_from_spec() -> bool {
        true
    }

    open spec fn from_spec(comparator: &ast::Comparator) -> Comparator {
        Comparator::of_ast(*comparator)
    }
}

impl Conjunction {
    /// The conjunction that a conjunctive of the surface syntax stands for.
    pub open spec fn of_ast(conjunctive: ast::Conjunctive) -> Conjunction {
        match conjunctive {
            ast::Conjunctive::And => Conjunction { op: OpConj::AND, invert: false },
            ast::Conjunctive::Or => Conjunction { op: OpConj::OR, invert: false },
        }
    }

    /// A conjunction that is not inverted.
    pub fn new(op: OpConj) -> (r: Self)
        ensures
            r == (Conjunction { op, invert: false }),
    {
        Conjunction { op: op, invert: false }
    }

    /// Set the `invert` field
    pub fn invert(self) -> (r: Self)
        ensures
            r == (Conjunction { invert: true, ..self }),
    {
        Conjunction { invert: true, ..self }
    }
}

impl From<&ast::Conjunctive> for Conjunction {
    /// Creates a `Conjunction` from an `ast::Conjunctive` type
    fn from(conjunctive: &ast::Conjunctive) -> (r: Self) {
        match conjunctive {
            ast::Conjunctive::And => Conjunction::new(OpConj::AND),
            ast::Conjunctive::Or => Conjunction::new(OpConj::OR),
        }
    }
}

impl FromSpecImpl<&ast::Conjunctive> for Conjunction {
    open spec fn obeys_from_spec() -> bool {
        true
    }

    open spec fn from_spec(conjunctive: &ast::Conjunctive) -> Conjunction {
        Conjunction::of_ast(*conjunctive)
    }
}

} // verus!
