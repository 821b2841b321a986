//! The shape of every tree that the parser gives.

use crate::parser::ast::{AssertionView, Literal, NodeView, SubjectView};
use crate::parser::lexer::{lexed, Keyword, LexemeView, TokenView};
use crate::parser::{
    assertion_parsed, clauses_parsed, comparator_parsed, comparison_parsed, conjunctive_at,
    contract_parsed, definitions_parsed, identifiers_parsed, imperative_parsed, is_word, item_at,
    items_parsed, lemma_assertion_advances, lemma_comparison_advances, lemma_literal_advances,
    literal_parsed, parsed, subject_parsed, token,
};
use vstd::prelude::*;

verus! {

/// A literal as the syntax has it: a number, a string, or a list that is
/// not empty and holds numbers alone or strings alone.
pub open spec fn flat(value: Literal) -> bool {
    match value {
        Literal::List(l) => {
            &&& l.len() > 0
            &&& {
                ||| forall|i: int| 0 <= i < l.len() ==> (#[trigger] l[i]) is Numeric
                ||| forall|i: int| 0 <= i < l.len() ==> (#[trigger] l[i]) is StringLike
            }
        },
        _ => true,
    }
}

/// Whether a subject, where it is a literal, is flat.
pub open spec fn subject_flat(subject: SubjectView) -> bool {
    subject matches SubjectView::Value(value) ==> flat(value)
}

/// Whether the literals of an assertion and of those joined to it are flat.
pub open spec fn assertion_flat(assertion: AssertionView) -> bool
    decreases assertion,
{
    &&& subject_flat(assertion.lhs)
    &&& subject_flat(assertion.rhs)
    &&& match assertion.conjoined {
        None => true,
        Some((_, next)) => assertion_flat(*next),
    }
}

/// Whether a node is as the syntax has it: a declaration declares one input
/// at least, and all literals are flat.
pub open spec fn node_flat(node: NodeView) -> bool {
    match node {
        NodeView::InputDeclaration(names) => names.len() > 0,
        NodeView::Definition(_, value) => flat(value),
        NodeView::Clause(assertion) => assertion_flat(assertion),
    }
}

/// The shape of a contract's tree: the declaration of the inputs, which is
/// the only one, then the definitions, then one clause or more.
pub open spec fn well_shaped(ir: Seq<NodeView>) -> bool {
    &&& ir.len() >= 2
    &&& ir[0] is InputDeclaration
    &&& ir.last() is Clause
    &&& forall|i: int| 1 <= i < ir.len() ==> !((#[trigger] ir[i]) is InputDeclaration)
    &&& forall|i: int, j: int|
        1 <= i < j < ir.len() && (#[trigger] ir[i]) is Clause ==> (#[trigger] ir[j]) is Clause
    &&& forall|i: int| 0 <= i < ir.len() ==> node_flat(#[trigger] ir[i])
}

proof fn lemma_identifiers_shape(tokens: Seq<LexemeView>, i: int, end: int)
    ensures
        identifiers_parsed(tokens, i, end) matches Ok((names, _)) ==> names.len() > 0,
    decreases tokens.len() - i,
{
    if token(tokens, i) is Some && token(tokens, i + 1) == Some(TokenView::Comma) {
        lemma_identifiers_shape(tokens, i + 2, end);
    }
}

proof fn lemma_items_shape(tokens: Seq<LexemeView>, i: int, end: int, numeric: bool)
    ensures
        items_parsed(tokens, i, end, numeric) matches Ok((items, _)) ==> {
            &&& items.len() > 0
            &&& forall|k: int|
                0 <= k < items.len() ==> if numeric {
                    (#[trigger] items[k]) is Numeric
                } else {
                    items[k] is StringLike
                }
        },
    decreases tokens.len() - i,
{
    if item_at(tokens, i, numeric) is Some && token(tokens, i + 1) == Some(TokenView::Comma) {
        lemma_items_shape(tokens, i + 2, end, numeric);
    }
}

proof fn lemma_literal_shape(tokens: Seq<LexemeView>, i: int, end: int)
    ensures
        literal_parsed(tokens, i, end) matches Ok((value, _)) ==> flat(value),
{
    if token(tokens, i) == Some(TokenView::Open) {
        lemma_items_shape(
            tokens,
            i + 1,
            end,
            token(tokens, i + 1) matches Some(TokenView::Integer(_)),
        );
    }
}

proof fn lemma_subject_shape(tokens: Seq<LexemeView>, i: int, end: int)
    ensures
        subject_parsed(tokens, i, end) matches Ok((subject, _)) ==> subject_flat(subject),
{
    lemma_literal_shape(tokens, i, end);
}

proof fn lemma_assertion_shape(tokens: Seq<LexemeView>, i: int, end: int)
    ensures
        assertion_parsed(tokens, i, end) matches Ok((assertion, _)) ==> assertion_flat(assertion),
    decreases tokens.len() - i,
{
    lemma_comparison_advances(tokens, i, end);
    lemma_subject_shape(tokens, i, end);
    if let Ok((_, after_lhs)) = subject_parsed(tokens, i, end) {
        if let Ok((_, after_imperative)) = imperative_parsed(tokens, after_lhs, end) {
            if let Ok((_, after_comparator)) = comparator_parsed(tokens, after_imperative, end) {
                lemma_subject_shape(tokens, after_comparator, end);
            }
        }
    }
    if let Ok((first, next)) = comparison_parsed(tokens, i, end) {
        if conjunctive_at(tokens, next) is Some {
            lemma_assertion_shape(tokens, next + 1, end);
        }
    }
}

proof fn lemma_definitions_shape(tokens: Seq<LexemeView>, i: int, end: int)
    ensures
        definitions_parsed(tokens, i, end) matches Ok((nodes, _)) ==> forall|k: int|
            0 <= k < nodes.len() ==> (#[trigger] nodes[k]) is Definition && node_flat(nodes[k]),
    decreases tokens.len() - i,
{
    if is_word(tokens, i, Keyword::Define) && token(tokens, i + 1) is Some {
        lemma_literal_advances(tokens, i + 3, end);
        lemma_literal_shape(tokens, i + 3, end);
        if let Ok((_, next)) = literal_parsed(tokens, i + 3, end) {
            lemma_definitions_shape(tokens, next, end);
        }
    }
}

proof fn lemma_clauses_shape(tokens: Seq<LexemeView>, i: int, end: int)
    ensures
        clauses_parsed(tokens, i, end) matches Ok(nodes) ==> {
            &&& nodes.len() > 0
            &&& forall|k: int|
                0 <= k < nodes.len() ==> (#[trigger] nodes[k]) is Clause && node_flat(nodes[k])
        },
    decreases tokens.len() - i,
{
    lemma_assertion_advances(tokens, i, end);
    lemma_assertion_shape(tokens, i, end);
    if let Ok((_, next)) = assertion_parsed(tokens, i, end) {
        if next < tokens.len() {
            lemma_clauses_shape(tokens, next, end);
        }
    }
}

/// **The shape of a parsed contract.** The tree of every text that parses
/// starts with the one declaration of inputs, goes on with the definitions
/// and ends with one clause or more; every list in it is flat.
pub proof fn lemma_parsed_is_well_shaped(text: Seq<char>)
    ensures
        parsed(text) matches Ok(ir) ==> well_shaped(ir),
{
    if let Ok(tokens) = lexed(text, 0) {
        let end = text.len() as int;
        if let Ok(ir) = contract_parsed(tokens, end) {
            lemma_identifiers_shape(tokens, 2, end);
            let (inputs, after_inputs) = identifiers_parsed(tokens, 2, end)->Ok_0;
            lemma_definitions_shape(tokens, after_inputs, end);
            let (definitions, after_definitions) = definitions_parsed(
                tokens,
                after_inputs,
                end,
            )->Ok_0;
            lemma_clauses_shape(tokens, after_definitions, end);
            let clauses = clauses_parsed(tokens, after_definitions, end)->Ok_0;
            assert(ir == seq![NodeView::InputDeclaration(inputs)] + definitions + clauses);
            assert forall|i: int| 1 <= i < ir.len() implies if i <= definitions.len() {
                ir[i] == definitions[i - 1]
            } else {
                ir[i] == clauses[i - 1 - definitions.len()]
            } by {}
        }
    }
}

} // verus!
