//! What holds of every compilation.

use crate::compiler::{
    assertion_compiled, comparator_of, compilation, compile, defined_value, node_compiled,
    nodes_compiled, subject_compiled, Compilation, CompileErr, CompileFault, MAX_ENTRIES,
};
use crate::parser::ast::{
    tree, AssertionView, Comparator as Comparison, Imperative, Literal, Node, NodeView,
    SubjectView,
};
use crate::parser::{parse, ParseError};
use crate::types::contract::{
    decoded_contract, encoded_contract, Contract, ContractView, FormatFault,
};
use crate::types::roundtrip::{contract_fits, lemma_contract_roundtrip, value_fits};
use crate::types::opcode::{Comparator, Conjunction, LoadSource, OpCode, SubjectSource};
use vstd::prelude::*;

verus! {

/// The other imperative.
pub open spec fn opposite(imperative: Imperative) -> Imperative {
    match imperative {
        Imperative::MustBe => Imperative::MustNotBe,
        Imperative::MustNotBe => Imperative::MustBe,
    }
}

/// The comparator that holds exactly where an ordering comparator does not:
/// `>` for `<=`, `>=` for `<`, and the other way round.
pub open spec fn complement(comparator: Comparison) -> Option<Comparison> {
    match comparator {
        Comparison::GreaterThan => Some(Comparison::LessThanOrEqual),
        Comparison::GreaterThanOrEqual => Some(Comparison::LessThan),
        Comparison::LessThan => Some(Comparison::GreaterThanOrEqual),
        Comparison::LessThanOrEqual => Some(Comparison::GreaterThan),
        _ => None,
    }
}

/// The comparator that says of the subjects in the other order what
/// `comparator` says of them: `<` for `>`, `<=` for `>=`, `==` for `==`.
pub open spec fn mirrored(comparator: Comparison) -> Option<Comparison> {
    match comparator {
        Comparison::Equal => Some(Comparison::Equal),
        Comparison::GreaterThan => Some(Comparison::LessThan),
        Comparison::GreaterThanOrEqual => Some(Comparison::LessThanOrEqual),
        Comparison::LessThan => Some(Comparison::GreaterThan),
        Comparison::LessThanOrEqual => Some(Comparison::GreaterThanOrEqual),
        Comparison::OneOf => None,
    }
}

/// **An imperative and its complement.** `a must be <= b` compiles to what
/// `a must not be > b` compiles to, and so for every ordering comparator and
/// both imperatives: the two contracts are the same, and so are their
/// results on all inputs.
pub proof fn lemma_complement_compiles_alike(
    state: Compilation,
    assertion: AssertionView,
    other: AssertionView,
)
    requires
        other.lhs == assertion.lhs,
        other.rhs == assertion.rhs,
        other.conjoined == assertion.conjoined,
        other.imperative == opposite(assertion.imperative),
        complement(assertion.comparator) == Some(other.comparator),
    ensures
        Comparator::of_ast(other.comparator).under(other.imperative) == Comparator::of_ast(
            assertion.comparator,
        ).under(assertion.imperative),
        assertion_compiled(state, other) == assertion_compiled(state, assertion),
{
}

/// **Subjects in the other order.** An assertion of an input and a literal
/// compiles to what the mirrored assertion of the literal and the input
/// compiles to: the compiler changes the sides back and inverts as needed.
pub proof fn lemma_mirrored_compiles_alike(
    state: Compilation,
    assertion: AssertionView,
    other: AssertionView,
)
    requires
        assertion.lhs matches SubjectView::Identifier(ident) && state.inputs.contains_key(ident),
        assertion.rhs is Value,
        other.lhs == assertion.rhs,
        other.rhs == assertion.lhs,
        other.imperative == assertion.imperative,
        other.conjoined == assertion.conjoined,
        mirrored(assertion.comparator) == Some(other.comparator),
    ensures
        assertion_compiled(state, other) == assertion_compiled(state, assertion),
{
    let ident = assertion.lhs->Identifier_0;
    let input = SubjectSource { load_source: LoadSource::Input, index: state.inputs[ident] };
    let table = SubjectSource {
        load_source: LoadSource::DataTable,
        index: state.data_table.len() as u8,
    };
    assert(comparator_of(assertion.imperative, assertion.comparator, input, table)
        == comparator_of(other.imperative, other.comparator, table, input));
}

/// **Limit on inputs.** A declaration of more than 16 inputs is refused
/// with `TooManyInputs`, and so is a tree that starts with one.
pub proof fn lemma_too_many_inputs(ir: Seq<NodeView>)
    requires
        ir.len() > 0,
        ir[0] matches NodeView::InputDeclaration(idents) && idents.len() > MAX_ENTRIES,
    ensures
        compilation(ir) == Err::<ContractView, CompileFault>(CompileFault::TooManyInputs),
{
}

/// **Limit on the data table, by a definition.** With 16 entries in the
/// data table, the definition of a new name with a value that could be
/// stored is refused with `DataTableFull`.
pub proof fn lemma_full_table_refuses_definition(
    state: Compilation,
    ident: Seq<char>,
    value: Literal,
)
    requires
        state.data_table.len() >= MAX_ENTRIES,
        !state.inputs.contains_key(ident),
        !state.users.contains_key(ident),
        defined_value(value) is Ok,
    ensures
        node_compiled(state, NodeView::Definition(ident, value)) == Err::<
            Compilation,
            CompileFault,
        >(CompileFault::DataTableFull),
{
}

/// **Limit on the data table, by a literal.** With 16 entries in the data
/// table, a literal subject is refused with `DataTableFull`.
pub proof fn lemma_full_table_refuses_literal(state: Compilation, value: Literal)
    requires
        state.data_table.len() >= MAX_ENTRIES,
    ensures
        subject_compiled(state, SubjectView::Value(value)) == Err::<
            (Compilation, SubjectSource),
            CompileFault,
        >(CompileFault::DataTableFull),
{
}

proof fn lemma_assertion_keeps_bound(state: Compilation, assertion: AssertionView)
    requires
        state.data_table.len() <= MAX_ENTRIES,
    ensures
        assertion_compiled(state, assertion) matches Ok(next) ==> next.data_table.len()
            <= MAX_ENTRIES,
    decreases assertion,
{
    if let Ok((with_lhs, lhs)) = subject_compiled(state, assertion.lhs) {
        if let Ok((with_rhs, rhs)) = subject_compiled(with_lhs, assertion.rhs) {
            if !(lhs.load_source is DataTable && rhs.load_source is DataTable) {
                if let Some((conjunctive, next)) = assertion.conjoined {
                    let compared = with_rhs.emitted(
                        OpCode::COMP(
                            comparator_of(assertion.imperative, assertion.comparator, lhs, rhs),
                        ),
                    );
                    lemma_assertion_keeps_bound(
                        compared.emitted(OpCode::CONJ(Conjunction::of_ast(conjunctive))),
                        *next,
                    );
                }
            }
        }
    }
}

proof fn lemma_nodes_keep_bound(state: Compilation, ir: Seq<NodeView>)
    requires
        state.data_table.len() <= MAX_ENTRIES,
    ensures
        nodes_compiled(state, ir) matches Ok(next) ==> next.data_table.len() <= MAX_ENTRIES,
    decreases ir.len(),
{
    if ir.len() > 0 {
        if let NodeView::Clause(assertion) = ir[0] {
            lemma_assertion_keeps_bound(state, assertion);
        }
        if let Ok(next) = node_compiled(state, ir[0]) {
            lemma_nodes_keep_bound(next, ir.skip(1));
        }
    }
}

/// **The data table of a contract.** A contract that compiles has at most
/// 16 entries in its data table.
pub proof fn lemma_table_is_bounded(ir: Seq<NodeView>)
    ensures
        compilation(ir) matches Ok(contract) ==> contract.data_table.len() <= MAX_ENTRIES,
{
    lemma_nodes_keep_bound(Compilation::start(), ir);
}

/// Whether a subject, where it is a literal, fits the binary format.
pub open spec fn subject_fits(subject: SubjectView) -> bool {
    subject matches SubjectView::Value(value) ==> value_fits(value.value())
}

/// Whether the literals of an assertion and of those joined to it fit the
/// binary format.
pub open spec fn assertion_fits(assertion: AssertionView) -> bool
    decreases assertion,
{
    &&& subject_fits(assertion.lhs)
    &&& subject_fits(assertion.rhs)
    &&& match assertion.conjoined {
        None => true,
        Some((_, next)) => assertion_fits(*next),
    }
}

/// Whether the literals of a tree fit the binary format: no string is
/// longer than 255 bytes and no list has a payload of more than 255 bytes.
pub open spec fn tree_fits(ir: Seq<NodeView>) -> bool {
    forall|i: int|
        0 <= i < ir.len() ==> match #[trigger] ir[i] {
            NodeView::InputDeclaration(_) => true,
            NodeView::Definition(_, value) => value_fits(value.value()),
            NodeView::Clause(assertion) => assertion_fits(assertion),
        }
}

/// Whether the data table of a compilation fits the binary format.
pub open spec fn table_fits(state: Compilation) -> bool {
    &&& state.data_table.len() <= MAX_ENTRIES
    &&& forall|i: int| 0 <= i < state.data_table.len() ==> value_fits(#[trigger] state.data_table[i])
}

proof fn lemma_assertion_keeps_fit(state: Compilation, assertion: AssertionView)
    requires
        table_fits(state),
        assertion_fits(assertion),
    ensures
        assertion_compiled(state, assertion) matches Ok(next) ==> table_fits(next),
    decreases assertion,
{
    if let Ok((with_lhs, lhs)) = subject_compiled(state, assertion.lhs) {
        if let Ok((with_rhs, rhs)) = subject_compiled(with_lhs, assertion.rhs) {
            if !(lhs.load_source is DataTable && rhs.load_source is DataTable) {
                if let Some((conjunctive, next)) = assertion.conjoined {
                    let compared = with_rhs.emitted(
                        OpCode::COMP(
                            comparator_of(assertion.imperative, assertion.comparator, lhs, rhs),
                        ),
                    );
                    lemma_assertion_keeps_fit(
                        compared.emitted(OpCode::CONJ(Conjunction::of_ast(conjunctive))),
                        *next,
                    );
                }
            }
        }
    }
}

proof fn lemma_nodes_keep_fit(state: Compilation, ir: Seq<NodeView>)
    requires
        table_fits(state),
        tree_fits(ir),
    ensures
        nodes_compiled(state, ir) matches Ok(next) ==> table_fits(next),
    decreases ir.len(),
{
    if ir.len() > 0 {
        assert(tree_fits(ir.skip(1))) by {
            assert forall|i: int| 0 <= i < ir.skip(1).len() implies match #[trigger] ir.skip(1)[i] {
                NodeView::InputDeclaration(_) => true,
                NodeView::Definition(_, value) => value_fits(value.value()),
                NodeView::Clause(assertion) => assertion_fits(assertion),
            } by {
                assert(ir.skip(1)[i] == ir[i + 1]);
            }
        }
        if let NodeView::Clause(assertion) = ir[0] {
            lemma_assertion_keeps_fit(state, assertion);
        }
        if let Ok(next) = node_compiled(state, ir[0]) {
            lemma_nodes_keep_fit(next, ir.skip(1));
        }
    }
}

/// **Round trip of a compiled contract.** A contract that was compiled from
/// a tree whose literals fit the binary format is what decoding gives of
/// its encoding.
pub proof fn lemma_compiled_contract_roundtrip(ir: Seq<NodeView>)
    requires
        tree_fits(ir),
    ensures
        compilation(ir) matches Ok(contract) ==> contract_fits(contract) && decoded_contract(
            encoded_contract(contract),
        ) == Ok::<ContractView, FormatFault>(contract),
{
    lemma_nodes_keep_fit(Compilation::start(), ir);
    if let Ok(contract) = compilation(ir) {
        lemma_contract_roundtrip(contract);
    }
}

/// **Parsing is a function of the text.** Two runs of the parser on texts
/// of the same characters end alike: with trees that say the same, or with
/// the same error.
pub proof fn lemma_parse_is_deterministic(
    first: &str,
    second: &str,
    r1: Result<Vec<Node>, ParseError>,
    r2: Result<Vec<Node>, ParseError>,
)
    requires
        first@ == second@,
        call_ensures(parse, (first,), r1),
        call_ensures(parse, (second,), r2),
    ensures
        match (r1, r2) {
            (Ok(a), Ok(b)) => tree(a@) == tree(b@),
            (Err(e1), Err(e2)) => e1 == e2,
            _ => false,
        },
{
}

/// **Compiling is a function of the tree.** Two runs of the compiler on
/// trees that say the same end alike: with contracts of the same data table
/// and byte code, or with errors that say the same.
pub proof fn lemma_compile_is_deterministic<'a, 'b>(
    first: &'a [Node],
    second: &'b [Node],
    r1: Result<Contract<'a>, CompileErr>,
    r2: Result<Contract<'b>, CompileErr>,
)
    requires
        tree(first@) == tree(second@),
        call_ensures(compile, (first,), r1),
        call_ensures(compile, (second,), r2),
    ensures
        match (r1, r2) {
            (Ok(c1), Ok(c2)) => c1@ == c2@,
            (Err(e1), Err(e2)) => e1@ == e2@,
            _ => false,
        },
{
}

} // verus!
