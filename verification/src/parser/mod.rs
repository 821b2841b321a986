//! The surface syntax of contracts and its parser.
//!
//! A contract is the declaration of its inputs, `given parameters $a, $b`,
//! then definitions, `define $name as <literal>`, then one assertion or
//! more. An assertion is `<subject> must [not] be <comparator> <subject>`,
//! and may go on with `and` or `or` and another assertion. The comparators
//! are `equal to`, `greater than`, `greater than or equal to`, `less than`,
//! `less than or equal to` and `one of`. A subject is an identifier or a
//! literal: a number, a string in double quotes, or a list in square
//! brackets of numbers or of strings.

pub mod ast;
pub mod lexer;
pub mod shape;

use crate::parser::ast::{
    AssertionView, Comparator, Conjunctive, Imperative, Literal, NodeView, SubjectView,
};
use crate::parser::lexer::{
    lex, lexed, lexemes, Expected, Fault, Keyword, Lexeme, LexemeView, Token, TokenView,
};
use vstd::prelude::*;
use vstd::string::StrSliceExecFns;

pub use crate::parser::lexer::ParseError;

verus! {

/// The token at place `i` of the tokens, if there is one.
pub open spec fn token(tokens: Seq<LexemeView>, i: int) -> Option<TokenView> {
    if 0 <= i < tokens.len() {
        Some(tokens[i].token)
    } else {
        None
    }
}

/// Whether the token at place `i` is the word `k`.
pub open spec fn is_word(tokens: Seq<LexemeView>, i: int, k: Keyword) -> bool {
    token(tokens, i) == Some(TokenView::Word(k))
}

/// The fault of wanting `expected` at place `i` of the tokens: it is
/// positioned at that token, or at the `end` of the text behind the last.
pub open spec fn fault(tokens: Seq<LexemeView>, i: int, end: int, expected: Expected) -> Fault {
    Fault {
        position: if 0 <= i < tokens.len() {
            tokens[i].position as int
        } else {
            end
        },
        expected,
    }
}

/// The place behind the word `k`, which is wanted at place `i`.
pub open spec fn word_parsed(tokens: Seq<LexemeView>, i: int, end: int, k: Keyword) -> Result<
    int,
    Fault,
> {
    if is_word(tokens, i, k) {
        Ok(i + 1)
    } else {
        Err(fault(tokens, i, end, Expected::Word(k)))
    }
}

/// One identifier or more, with commas between them.
pub open spec fn identifiers_parsed(tokens: Seq<LexemeView>, i: int, end: int) -> Result<
    (Seq<Seq<char>>, int),
    Fault,
>
    decreases tokens.len() - i,
{
    match token(tokens, i) {
        Some(TokenView::Identifier(name)) => if token(tokens, i + 1) == Some(TokenView::Comma) {
            match identifiers_parsed(tokens, i + 2, end) {
                Err(e) => Err(e),
                Ok((rest, next)) => Ok((seq![name] + rest, next)),
            }
        } else {
            Ok((seq![name], i + 1))
        },
        _ => Err(fault(tokens, i, end, Expected::Identifier)),
    }
}

/// The number or the string at place `i`, whichever `numeric` asks for.
pub open spec fn item_at(tokens: Seq<LexemeView>, i: int, numeric: bool) -> Option<Literal> {
    match token(tokens, i) {
        Some(TokenView::Integer(n)) => if numeric {
            Some(Literal::Numeric(n))
        } else {
            None
        },
        Some(TokenView::Text(s)) => if numeric {
            None
        } else {
            Some(Literal::StringLike(s))
        },
        _ => None,
    }
}

/// The items of a list, from place `i` to its `]`: one item or more of one
/// kind, with commas between them.
pub open spec fn items_parsed(tokens: Seq<LexemeView>, i: int, end: int, numeric: bool) -> Result<
    (Seq<Literal>, int),
    Fault,
>
    decreases tokens.len() - i,
{
    match item_at(tokens, i, numeric) {
        None => Err(fault(tokens, i, end, Expected::Literal)),
        Some(item) => if token(tokens, i + 1) == Some(TokenView::Comma) {
            match items_parsed(tokens, i + 2, end, numeric) {
                Err(e) => Err(e),
                Ok((rest, next)) => Ok((seq![item] + rest, next)),
            }
        } else if token(tokens, i + 1) == Some(TokenView::Close) {
            Ok((seq![item], i + 2))
        } else {
            Err(fault(tokens, i + 1, end, Expected::Separator))
        },
    }
}

/// A literal: a number, a string, or a list whose first item says of which
/// kind its items are.
pub open spec fn literal_parsed(tokens: Seq<LexemeView>, i: int, end: int) -> Result<
    (Literal, int),
    Fault,
> {
    match token(tokens, i) {
        Some(TokenView::Integer(n)) => Ok((Literal::Numeric(n), i + 1)),
        Some(TokenView::Text(s)) => Ok((Literal::StringLike(s), i + 1)),
        Some(TokenView::Open) => match items_parsed(
            tokens,
            i + 1,
            end,
            token(tokens, i + 1) matches Some(TokenView::Integer(_)),
        ) {
            Err(e) => Err(e),
            Ok((items, next)) => Ok((Literal::List(items), next)),
        },
        _ => Err(fault(tokens, i, end, Expected::Literal)),
    }
}

/// A subject: an identifier or a literal.
pub open spec fn subject_parsed(tokens: Seq<LexemeView>, i: int, end: int) -> Result<
    (SubjectView, int),
    Fault,
> {
    match token(tokens, i) {
        Some(TokenView::Identifier(name)) => Ok((SubjectView::Identifier(name), i + 1)),
        Some(TokenView::Integer(_)) | Some(TokenView::Text(_)) | Some(TokenView::Open) => match literal_parsed(
            tokens,
            i,
            end,
        ) {
            Err(e) => Err(e),
            Ok((value, next)) => Ok((SubjectView::Value(value), next)),
        },
        _ => Err(fault(tokens, i, end, Expected::Subject)),
    }
}

/// `than`, and `or equal to` where it follows: `strict` without it,
/// `inclusive` with it.
pub open spec fn ordering_parsed(
    tokens: Seq<LexemeView>,
    i: int,
    end: int,
    strict: Comparator,
    inclusive: Comparator,
) -> Result<(Comparator, int), Fault> {
    if !is_word(tokens, i, Keyword::Than) {
        Err(fault(tokens, i, end, Expected::Word(Keyword::Than)))
    } else if !is_word(tokens, i + 1, Keyword::Or) {
        Ok((strict, i + 1))
    } else if !is_word(tokens, i + 2, Keyword::Equal) {
        Err(fault(tokens, i + 2, end, Expected::Word(Keyword::Equal)))
    } else if !is_word(tokens, i + 3, Keyword::To) {
        Err(fault(tokens, i + 3, end, Expected::Word(Keyword::To)))
    } else {
        Ok((inclusive, i + 4))
    }
}

/// A comparator phrase.
pub open spec fn comparator_parsed(tokens: Seq<LexemeView>, i: int, end: int) -> Result<
    (Comparator, int),
    Fault,
> {
    if is_word(tokens, i, Keyword::Equal) {
        match word_parsed(tokens, i + 1, end, Keyword::To) {
            Err(e) => Err(e),
            Ok(next) => Ok((Comparator::Equal, next)),
        }
    } else if is_word(tokens, i, Keyword::Greater) {
        ordering_parsed(
            tokens,
            i + 1,
            end,
            Comparator::GreaterThan,
            Comparator::GreaterThanOrEqual,
        )
    } else if is_word(tokens, i, Keyword::Less) {
        ordering_parsed(tokens, i + 1, end, Comparator::LessThan, Comparator::LessThanOrEqual)
    } else if is_word(tokens, i, Keyword::One) {
        match word_parsed(tokens, i + 1, end, Keyword::Of) {
            Err(e) => Err(e),
            Ok(next) => Ok((Comparator::OneOf, next)),
        }
    } else {
        Err(fault(tokens, i, end, Expected::Comparator))
    }
}

/// `must be` or `must not be`.
pub open spec fn imperative_parsed(tokens: Seq<LexemeView>, i: int, end: int) -> Result<
    (Imperative, int),
    Fault,
> {
    if !is_word(tokens, i, Keyword::Must) {
        Err(fault(tokens, i, end, Expected::Word(Keyword::Must)))
    } else if is_word(tokens, i + 1, Keyword::Not) {
        match word_parsed(tokens, i + 2, end, Keyword::Be) {
            Err(e) => Err(e),
            Ok(next) => Ok((Imperative::MustNotBe, next)),
        }
    } else {
        match word_parsed(tokens, i + 1, end, Keyword::Be) {
            Err(e) => Err(e),
            Ok(next) => Ok((Imperative::MustBe, next)),
        }
    }
}

/// One comparison: subject, imperative, comparator, subject.
pub open spec fn comparison_parsed(tokens: Seq<LexemeView>, i: int, end: int) -> Result<
    (AssertionView, int),
    Fault,
> {
    match subject_parsed(tokens, i, end) {
        Err(e) => Err(e),
        Ok((lhs, after_lhs)) => match imperative_parsed(tokens, after_lhs, end) {
            Err(e) => Err(e),
            Ok((imperative, after_imperative)) => match comparator_parsed(
                tokens,
                after_imperative,
                end,
            ) {
                Err(e) => Err(e),
                Ok((comparator, after_comparator)) => match subject_parsed(
                    tokens,
                    after_comparator,
                    end,
                ) {
                    Err(e) => Err(e),
                    Ok((rhs, next)) => Ok(
                        (AssertionView { lhs, imperative, comparator, rhs, conjoined: None }, next),
                    ),
                },
            },
        },
    }
}

/// The conjunctive at place `i`, if there is one.
pub open spec fn conjunctive_at(tokens: Seq<LexemeView>, i: int) -> Option<Conjunctive> {
    if is_word(tokens, i, Keyword::And) {
        Some(Conjunctive::And)
    } else if is_word(tokens, i, Keyword::Or) {
        Some(Conjunctive::Or)
    } else {
        None
    }
}

/// An assertion: a comparison, and behind `and` or `or` another assertion.
pub open spec fn assertion_parsed(tokens: Seq<LexemeView>, i: int, end: int) -> Result<
    (AssertionView, int),
    Fault,
>
    decreases tokens.len() - i,
    via assertion_parsed_decreases
{
    match comparison_parsed(tokens, i, end) {
        Err(e) => Err(e),
        Ok((first, next)) => match conjunctive_at(tokens, next) {
            None => Ok((first, next)),
            Some(conjunctive) => match assertion_parsed(tokens, next + 1, end) {
                Err(e) => Err(e),
                Ok((rest, after)) => Ok(
                    (AssertionView { conjoined: Some((conjunctive, Box::new(rest))), ..first }, after),
                ),
            },
        },
    }
}

/// A literal lies within the tokens and is not empty.
pub proof fn lemma_literal_advances(tokens: Seq<LexemeView>, i: int, end: int)
    ensures
        literal_parsed(tokens, i, end) matches Ok((_, next)) ==> 0 <= i < next <= tokens.len(),
{
    if token(tokens, i) == Some(TokenView::Open) {
        lemma_items_advance(
            tokens,
            i + 1,
            end,
            token(tokens, i + 1) matches Some(TokenView::Integer(_)),
        );
    }
}

/// The items of a list lie within the tokens and are not empty.
pub proof fn lemma_items_advance(tokens: Seq<LexemeView>, i: int, end: int, numeric: bool)
    ensures
        items_parsed(tokens, i, end, numeric) matches Ok((_, next)) ==> 0 <= i < next
            <= tokens.len(),
    decreases tokens.len() - i,
{
    if item_at(tokens, i, numeric) is Some && token(tokens, i + 1) == Some(TokenView::Comma) {
        lemma_items_advance(tokens, i + 2, end, numeric);
    }
}

/// A comparison lies within the tokens and is not empty.
pub proof fn lemma_comparison_advances(tokens: Seq<LexemeView>, i: int, end: int)
    ensures
        comparison_parsed(tokens, i, end) matches Ok((_, next)) ==> 0 <= i < next <= tokens.len(),
{
    lemma_literal_advances(tokens, i, end);
    if let Ok((_, after_lhs)) = subject_parsed(tokens, i, end) {
        if let Ok((_, after_imperative)) = imperative_parsed(tokens, after_lhs, end) {
            if let Ok((_, after_comparator)) = comparator_parsed(tokens, after_imperative, end) {
                lemma_literal_advances(tokens, after_comparator, end);
            }
        }
    }
}

#[via_fn]
proof fn assertion_parsed_decreases(tokens: Seq<LexemeView>, i: int, end: int) {
    lemma_comparison_advances(tokens, i, end);
}

/// The definitions from place `i` on: each is `define`, an identifier, `as`
/// and a literal. They end before the first token that is not `define`.
pub open spec fn definitions_parsed(tokens: Seq<LexemeView>, i: int, end: int) -> Result<
    (Seq<NodeView>, int),
    Fault,
>
    decreases tokens.len() - i,
    via definitions_parsed_decreases
{
    if !is_word(tokens, i, Keyword::Define) {
        Ok((Seq::empty(), i))
    } else {
        match token(tokens, i + 1) {
            Some(TokenView::Identifier(name)) => match word_parsed(
                tokens,
                i + 2,
                end,
                Keyword::As,
            ) {
                Err(e) => Err(e),
                Ok(after_as) => match literal_parsed(tokens, after_as, end) {
                    Err(e) => Err(e),
                    Ok((value, next)) => match definitions_parsed(tokens, next, end) {
                        Err(e) => Err(e),
                        Ok((rest, after)) => Ok(
                            (seq![NodeView::Definition(name, value)] + rest, after),
                        ),
                    },
                },
            },
            _ => Err(fault(tokens, i + 1, end, Expected::Identifier)),
        }
    }
}

#[via_fn]
proof fn definitions_parsed_decreases(tokens: Seq<LexemeView>, i: int, end: int) {
    lemma_literal_advances(tokens, i + 3, end);
}

/// The clauses from place `i` to the end of the tokens: one assertion or
/// more.
pub open spec fn clauses_parsed(tokens: Seq<LexemeView>, i: int, end: int) -> Result<
    Seq<NodeView>,
    Fault,
>
    decreases tokens.len() - i,
    via clauses_parsed_decreases
{
    match assertion_parsed(tokens, i, end) {
        Err(e) => Err(e),
        Ok((assertion, next)) => if next >= tokens.len() {
            Ok(seq![NodeView::Clause(assertion)])
        } else {
            match clauses_parsed(tokens, next, end) {
                Err(e) => Err(e),
                Ok(rest) => Ok(seq![NodeView::Clause(assertion)] + rest),
            }
        },
    }
}

/// An assertion lies within the tokens and is not empty.
pub proof fn lemma_assertion_advances(tokens: Seq<LexemeView>, i: int, end: int)
    ensures
        assertion_parsed(tokens, i, end) matches Ok((_, next)) ==> 0 <= i < next <= tokens.len(),
    decreases tokens.len() - i,
{
    lemma_comparison_advances(tokens, i, end);
    if let Ok((_, next)) = comparison_parsed(tokens, i, end) {
        if conjunctive_at(tokens, next) is Some {
            lemma_assertion_advances(tokens, next + 1, end);
        }
    }
}

#[via_fn]
proof fn clauses_parsed_decreases(tokens: Seq<LexemeView>, i: int, end: int) {
    lemma_assertion_advances(tokens, i, end);
}

/// The syntax tree of a contract's tokens: the declaration of the inputs,
/// the definitions, the clauses.
pub open spec fn contract_parsed(tokens: Seq<LexemeView>, end: int) -> Result<Seq<NodeView>, Fault> {
    match word_parsed(tokens, 0, end, Keyword::Given) {
        Err(e) => Err(e),
        Ok(_) => match word_parsed(tokens, 1, end, Keyword::Parameters) {
            Err(e) => Err(e),
            Ok(_) => match identifiers_parsed(tokens, 2, end) {
                Err(e) => Err(e),
                Ok((inputs, after_inputs)) => match definitions_parsed(tokens, after_inputs, end) {
                    Err(e) => Err(e),
                    Ok((definitions, after_definitions)) => match clauses_parsed(
                        tokens,
                        after_definitions,
                        end,
                    ) {
                        Err(e) => Err(e),
                        Ok(clauses) => Ok(
                            seq![NodeView::InputDeclaration(inputs)] + definitions + clauses,
                        ),
                    },
                },
            },
        },
    }
}

/// The syntax tree of a contract's text.
pub open spec fn parsed(text: Seq<char>) -> Result<Seq<NodeView>, Fault> {
    match lexed(text, 0) {
        Err(e) => Err(e),
        Ok(tokens) => contract_parsed(tokens, text.len() as int),
    }
}

fn word_at(tokens: &Vec<Lexeme>, i: usize, k: Keyword) -> (r: bool)
    ensures
        r == is_word(lexemes(tokens@), i as int, k),
        r ==> i < tokens.len(),
{
    if i < tokens.len() {
        match &tokens[i].token {
            Token::Word(w) => *w == k,
            _ => false,
        }
    } else {
        false
    }
}

fn comma_at(tokens: &Vec<Lexeme>, i: usize) -> (r: bool)
    ensures
        r == (token(lexemes(tokens@), i as int) == Some(TokenView::Comma)),
        r ==> i < tokens.len(),
{
    if i < tokens.len() {
        match &tokens[i].token {
            Token::Comma => true,
            _ => false,
        }
    } else {
        false
    }
}

fn close_at(tokens: &Vec<Lexeme>, i: usize) -> (r: bool)
    ensures
        r == (token(lexemes(tokens@), i as int) == Some(TokenView::Close)),
        r ==> i < tokens.len(),
{
    if i < tokens.len() {
        match &tokens[i].token {
            Token::Close => true,
            _ => false,
        }
    } else {
        false
    }
}

fn refuse(tokens: &Vec<Lexeme>, i: usize, end: usize, expected: Expected) -> (r: ParseError)
    ensures
        r@ == fault(lexemes(tokens@), i as int, end as int, expected),
{
    if i < tokens.len() {
        ParseError { position: tokens[i].position, expected }
    } else {
        ParseError { position: end, expected }
    }
}

fn parse_word(tokens: &Vec<Lexeme>, i: usize, end: usize, k: Keyword) -> (r: Result<
    usize,
    ParseError,
>)
    ensures
        match word_parsed(lexemes(tokens@), i as int, end as int, k) {
            Ok(next) => r matches Ok(n) && n == next && next <= tokens.len(),
            Err(e) => r matches Err(x) && x@ == e,
        },
{
    if word_at(tokens, i, k) {
        Ok(i + 1)
    } else {
        Err(refuse(tokens, i, end, Expected::Word(k)))
    }
}

fn parse_identifiers(tokens: &Vec<Lexeme>, i: usize, end: usize, out: &mut Vec<String>) -> (r:
    Result<usize, ParseError>)
    ensures
        match identifiers_parsed(lexemes(tokens@), i as int, end as int) {
            Ok((names, next)) => {
                &&& r matches Ok(n) && n == next
                &&& next <= tokens.len()
                &&& ast::names(final(out)@) == ast::names(old(out)@) + names
            },
            Err(e) => r matches Err(x) && x@ == e,
        },
    decreases tokens.len() - i,
{
    if i < tokens.len() {
        if let Token::Identifier(name) = &tokens[i].token {
            let ghost before = ast::names(out@);
            out.push(name.clone());
            assert(ast::names(out@) =~= before.push(name@));
            if comma_at(tokens, i + 1) {
                let ghost middle = ast::names(out@);
                return match parse_identifiers(tokens, i + 2, end, out) {
                    Err(e) => Err(e),
                    Ok(next) => {
                        proof {
                            let rest = identifiers_parsed(
                                lexemes(tokens@),
                                i + 2,
                                end as int,
                            )->Ok_0.0;
                            assert(before.push(name@) + rest =~= before + (seq![name@] + rest));
                        }
                        Ok(next)
                    },
                };
            }
            assert(before.push(name@) =~= before + seq![name@]);
            return Ok(i + 1);
        }
    }
    Err(refuse(tokens, i, end, Expected::Identifier))
}

fn parse_item(tokens: &Vec<Lexeme>, i: usize, numeric: bool) -> (r: Option<ast::Value>)
    ensures
        match item_at(lexemes(tokens@), i as int, numeric) {
            Some(item) => r matches Some(v) && v@ == item && i < tokens.len(),
            None => r is None,
        },
{
    if i < tokens.len() {
        match &tokens[i].token {
            Token::Integer(n) => if numeric {
                Some(ast::Value::Numeric(*n))
            } else {
                None
            },
            Token::Text(s) => if numeric {
                None
            } else {
                Some(ast::Value::StringLike(s.clone()))
            },
            _ => None,
        }
    } else {
        None
    }
}

fn parse_items(
    tokens: &Vec<Lexeme>,
    i: usize,
    end: usize,
    numeric: bool,
    out: &mut Vec<ast::Value>,
) -> (r: Result<usize, ParseError>)
    ensures
        match items_parsed(lexemes(tokens@), i as int, end as int, numeric) {
            Ok((items, next)) => {
                &&& r matches Ok(n) && n == next
                &&& next <= tokens.len()
                &&& ast::literals(final(out)@) == ast::literals(old(out)@) + items
            },
            Err(e) => r matches Err(x) && x@ == e,
        },
    decreases tokens.len() - i,
{
    match parse_item(tokens, i, numeric) {
        None => Err(refuse(tokens, i, end, Expected::Literal)),
        Some(item) => {
            let ghost before = ast::literals(out@);
            let ghost said = item@;
            out.push(item);
            assert(ast::literals(out@) =~= before.push(said));
            if comma_at(tokens, i + 1) {
                match parse_items(tokens, i + 2, end, numeric, out) {
                    Err(e) => Err(e),
                    Ok(next) => {
                        proof {
                            let rest = items_parsed(
                                lexemes(tokens@),
                                i + 2,
                                end as int,
                                numeric,
                            )->Ok_0.0;
                            assert(before.push(said) + rest =~= before + (seq![said] + rest));
                        }
                        Ok(next)
                    },
                }
            } else if close_at(tokens, i + 1) {
                assert(before.push(said) =~= before + seq![said]);
                Ok(i + 2)
            } else {
                Err(refuse(tokens, i + 1, end, Expected::Separator))
            }
        },
    }
}

fn parse_literal(tokens: &Vec<Lexeme>, i: usize, end: usize) -> (r: Result<
    (ast::Value, usize),
    ParseError,
>)
    ensures
        match literal_parsed(lexemes(tokens@), i as int, end as int) {
            Ok((value, next)) => r matches Ok((v, n)) && v@ == value && n == next && next
                <= tokens.len(),
            Err(e) => r matches Err(x) && x@ == e,
        },
{
    if i < tokens.len() {
        match &tokens[i].token {
            Token::Integer(n) => {
                return Ok((ast::Value::Numeric(*n), i + 1));
            },
            Token::Text(s) => {
                return Ok((ast::Value::StringLike(s.clone()), i + 1));
            },
            Token::Open => {
                let numeric = i + 1 < tokens.len() && match &tokens[i + 1].token {
                    Token::Integer(_) => true,
                    _ => false,
                };
                assert(i + 1 < tokens.len() ==> lexemes(tokens@)[i + 1] == tokens@[i + 1]@);
                let mut items: Vec<ast::Value> = Vec::new();
                assert(ast::literals(items@) =~= Seq::<Literal>::empty());
                return match parse_items(tokens, i + 1, end, numeric, &mut items) {
                    Err(e) => Err(e),
                    Ok(next) => {
                        proof {
                            ast::lemma_list_literal(items);
                            let said = items_parsed(
                                lexemes(tokens@),
                                i + 1,
                                end as int,
                                numeric,
                            )->Ok_0.0;
                            assert(Seq::<Literal>::empty() + said =~= said);
                        }
                        Ok((ast::Value::List(items), next))
                    },
                };
            },
            _ => {},
        }
    }
    Err(refuse(tokens, i, end, Expected::Literal))
}

fn parse_subject(tokens: &Vec<Lexeme>, i: usize, end: usize) -> (r: Result<
    (ast::Subject, usize),
    ParseError,
>)
    ensures
        match subject_parsed(lexemes(tokens@), i as int, end as int) {
            Ok((subject, next)) => r matches Ok((s, n)) && s@ == subject && n == next && next
                <= tokens.len(),
            Err(e) => r matches Err(x) && x@ == e,
        },
{
    if i < tokens.len() {
        match &tokens[i].token {
            Token::Identifier(name) => {
                return Ok((ast::Subject::Identifier(name.clone()), i + 1));
            },
            Token::Integer(_) | Token::Text(_) | Token::Open => {
                return match parse_literal(tokens, i, end) {
                    Err(e) => Err(e),
                    Ok((value, next)) => Ok((ast::Subject::Value(value), next)),
                };
            },
            _ => {},
        }
    }
    Err(refuse(tokens, i, end, Expected::Subject))
}

fn parse_ordering(
    tokens: &Vec<Lexeme>,
    i: usize,
    end: usize,
    strict: Comparator,
    inclusive: Comparator,
) -> (r: Result<(Comparator, usize), ParseError>)
    requires
        i <= tokens.len(),
    ensures
        match ordering_parsed(lexemes(tokens@), i as int, end as int, strict, inclusive) {
            Ok((comparator, next)) => r matches Ok((c, n)) && c == comparator && n == next && next
                <= tokens.len(),
            Err(e) => r matches Err(x) && x@ == e,
        },
{
    if !word_at(tokens, i, Keyword::Than) {
        Err(refuse(tokens, i, end, Expected::Word(Keyword::Than)))
    } else if !word_at(tokens, i + 1, Keyword::Or) {
        Ok((strict, i + 1))
    } else if !word_at(tokens, i + 2, Keyword::Equal) {
        Err(refuse(tokens, i + 2, end, Expected::Word(Keyword::Equal)))
    } else if !word_at(tokens, i + 3, Keyword::To) {
        Err(refuse(tokens, i + 3, end, Expected::Word(Keyword::To)))
    } else {
        Ok((inclusive, i + 4))
    }
}

fn parse_comparator(tokens: &Vec<Lexeme>, i: usize, end: usize) -> (r: Result<
    (Comparator, usize),
    ParseError,
>)
    ensures
        match comparator_parsed(lexemes(tokens@), i as int, end as int) {
            Ok((comparator, next)) => r matches Ok((c, n)) && c == comparator && n == next && next
                <= tokens.len(),
            Err(e) => r matches Err(x) && x@ == e,
        },
{
    if word_at(tokens, i, Keyword::Equal) {
        match parse_word(tokens, i + 1, end, Keyword::To) {
            Err(e) => Err(e),
            Ok(next) => Ok((Comparator::Equal, next)),
        }
    } else if word_at(tokens, i, Keyword::Greater) {
        parse_ordering(
            tokens,
            i + 1,
            end,
            Comparator::GreaterThan,
            Comparator::GreaterThanOrEqual,
        )
    } else if word_at(tokens, i, Keyword::Less) {
        parse_ordering(tokens, i + 1, end, Comparator::LessThan, Comparator::LessThanOrEqual)
    } else if word_at(tokens, i, Keyword::One) {
        match parse_word(tokens, i + 1, end, Keyword::Of) {
            Err(e) => Err(e),
            Ok(next) => Ok((Comparator::OneOf, next)),
        }
    } else {
        Err(refuse(tokens, i, end, Expected::Comparator))
    }
}

fn parse_imperative(tokens: &Vec<Lexeme>, i: usize, end: usize) -> (r: Result<
    (Imperative, usize),
    ParseError,
>)
    ensures
        match imperative_parsed(lexemes(tokens@), i as int, end as int) {
            Ok((imperative, next)) => r matches Ok((m, n)) && m == imperative && n == next && next
                <= tokens.len(),
            Err(e) => r matches Err(x) && x@ == e,
        },
{
    if !word_at(tokens, i, Keyword::Must) {
        Err(refuse(tokens, i, end, Expected::Word(Keyword::Must)))
    } else if word_at(tokens, i + 1, Keyword::Not) {
        match parse_word(tokens, i + 2, end, Keyword::Be) {
            Err(e) => Err(e),
            Ok(next) => Ok((Imperative::MustNotBe, next)),
        }
    } else {
        match parse_word(tokens, i + 1, end, Keyword::Be) {
            Err(e) => Err(e),
            Ok(next) => Ok((Imperative::MustBe, next)),
        }
    }
}

fn parse_assertion(tokens: &Vec<Lexeme>, i: usize, end: usize) -> (r: Result<
    (ast::Assertion, usize),
    ParseError,
>)
    ensures
        match assertion_parsed(lexemes(tokens@), i as int, end as int) {
            Ok((assertion, next)) => r matches Ok((a, n)) && a@ == assertion && n == next && next
                <= tokens.len(),
            Err(e) => r matches Err(x) && x@ == e,
        },
    decreases tokens.len() - i,
{
    proof {
        lemma_comparison_advances(lexemes(tokens@), i as int, end as int);
    }
    let (lhs, after_lhs) = match parse_subject(tokens, i, end) {
        Ok(found) => found,
        Err(e) => {
            return Err(e);
        },
    };
    let (imperative, after_imperative) = match parse_imperative(tokens, after_lhs, end) {
        Ok(found) => found,
        Err(e) => {
            return Err(e);
        },
    };
    let (comparator, after_comparator) = match parse_comparator(tokens, after_imperative, end) {
        Ok(found) => found,
        Err(e) => {
            return Err(e);
        },
    };
    let (rhs, next) = match parse_subject(tokens, after_comparator, end) {
        Ok(found) => found,
        Err(e) => {
            return Err(e);
        },
    };
    let conjunctive = if word_at(tokens, next, Keyword::And) {
        Some(Conjunctive::And)
    } else if word_at(tokens, next, Keyword::Or) {
        Some(Conjunctive::Or)
    } else {
        None
    };
    match conjunctive {
        None => Ok((ast::Assertion(lhs, imperative, comparator, rhs, None), next)),
        Some(conjunctive) => match parse_assertion(tokens, next + 1, end) {
            Err(e) => Err(e),
            Ok((rest, after)) => Ok(
                (
                    ast::Assertion(
                        lhs,
                        imperative,
                        comparator,
                        rhs,
                        Some((conjunctive, Box::new(rest))),
                    ),
                    after,
                ),
            ),
        },
    }
}

fn parse_definitions(tokens: &Vec<Lexeme>, i: usize, end: usize, out: &mut Vec<ast::Node>) -> (r:
    Result<usize, ParseError>)
    requires
        i <= tokens.len(),
    ensures
        match definitions_parsed(lexemes(tokens@), i as int, end as int) {
            Ok((nodes, next)) => {
                &&& r matches Ok(n) && n == next
                &&& next <= tokens.len()
                &&& ast::tree(final(out)@) == ast::tree(old(out)@) + nodes
            },
            Err(e) => r matches Err(x) && x@ == e,
        },
    decreases tokens.len() - i,
{
    if !word_at(tokens, i, Keyword::Define) {
        assert(ast::tree(out@) + Seq::<NodeView>::empty() =~= ast::tree(out@));
        return Ok(i);
    }
    if i + 1 < tokens.len() {
        if let Token::Identifier(name) = &tokens[i + 1].token {
            let after_as = match parse_word(tokens, i + 2, end, Keyword::As) {
                Ok(next) => next,
                Err(e) => {
                    return Err(e);
                },
            };
            proof {
                lemma_literal_advances(lexemes(tokens@), after_as as int, end as int);
            }
            let (value, next) = match parse_literal(tokens, after_as, end) {
                Ok(found) => found,
                Err(e) => {
                    return Err(e);
                },
            };
            let ghost before = ast::tree(out@);
            let node = ast::Node::Definition(name.clone(), value);
            let ghost said = node@;
            out.push(node);
            assert(ast::tree(out@) =~= before.push(said));
            return match parse_definitions(tokens, next, end, out) {
                Err(e) => Err(e),
                Ok(after) => {
                    proof {
                        let rest = definitions_parsed(
                            lexemes(tokens@),
                            next as int,
                            end as int,
                        )->Ok_0.0;
                        assert(before.push(said) + rest =~= before + (seq![said] + rest));
                    }
                    Ok(after)
                },
            };
        }
    }
    Err(refuse(tokens, i + 1, end, Expected::Identifier))
}

fn parse_clauses(tokens: &Vec<Lexeme>, i: usize, end: usize, out: &mut Vec<ast::Node>) -> (r:
    Result<(), ParseError>)
    ensures
        match clauses_parsed(lexemes(tokens@), i as int, end as int) {
            Ok(nodes) => {
                &&& r == Ok::<(), ParseError>(())
                &&& ast::tree(final(out)@) == ast::tree(old(out)@) + nodes
            },
            Err(e) => r matches Err(x) && x@ == e,
        },
    decreases tokens.len() - i,
{
    proof {
        lemma_assertion_advances(lexemes(tokens@), i as int, end as int);
    }
    let (assertion, next) = match parse_assertion(tokens, i, end) {
        Ok(found) => found,
        Err(e) => {
            return Err(e);
        },
    };
    let ghost before = ast::tree(out@);
    let node = ast::Node::Clause(assertion);
    let ghost said = node@;
    out.push(node);
    assert(ast::tree(out@) =~= before.push(said));
    if next >= tokens.len() {
        assert(before.push(said) =~= before + seq![said]);
        Ok(())
    } else {
        match parse_clauses(tokens, next, end, out) {
            Err(e) => Err(e),
            Ok(_) => {
                proof {
                    let rest = clauses_parsed(lexemes(tokens@), next as int, end as int)->Ok_0;
                    assert(before.push(said) + rest =~= before + (seq![said] + rest));
                }
                Ok(())
            },
        }
    }
}

/// The syntax tree of the tokens of a text that is `end` characters long.
pub fn parse_tokens(tokens: &Vec<Lexeme>, end: usize) -> (r: Result<Vec<ast::Node>, ParseError>)
    ensures
        match contract_parsed(lexemes(tokens@), end as int) {
            Ok(nodes) => r matches Ok(ir) && ast::tree(ir@) == nodes,
            Err(e) => r matches Err(x) && x@ == e,
        },
{
    let mut ir: Vec<ast::Node> = Vec::new();
    match parse_word(tokens, 0, end, Keyword::Given) {
        Ok(_) => {},
        Err(e) => {
            return Err(e);
        },
    }
    match parse_word(tokens, 1, end, Keyword::Parameters) {
        Ok(_) => {},
        Err(e) => {
            return Err(e);
        },
    }
    let mut inputs: Vec<String> = Vec::new();
    assert(ast::names(inputs@) =~= Seq::<Seq<char>>::empty());
    let after_inputs = match parse_identifiers(tokens, 2, end, &mut inputs) {
        Ok(next) => next,
        Err(e) => {
            return Err(e);
        },
    };
    let ghost said = identifiers_parsed(lexemes(tokens@), 2, end as int)->Ok_0.0;
    assert(Seq::<Seq<char>>::empty() + said =~= said);
    ir.push(ast::Node::InputDeclaration(inputs));
    assert(ast::tree(ir@) =~= seq![NodeView::InputDeclaration(said)]);
    let after_definitions = match parse_definitions(tokens, after_inputs, end, &mut ir) {
        Ok(next) => next,
        Err(e) => {
            return Err(e);
        },
    };
    match parse_clauses(tokens, after_definitions, end, &mut ir) {
        Ok(_) => Ok(ir),
        Err(e) => Err(e),
    }
}

/// Attempt to parse the given `source` string as a contract.
/// Returns an AST on success, otherwise the relevant error
pub fn parse(source: &str) -> (r: Result<Vec<ast::Node>, ParseError>)
    ensures
        match parsed(source@) {
            Ok(nodes) => r matches Ok(ir) && ast::tree(ir@) == nodes,
            Err(e) => r matches Err(x) && x@ == e,
        },
{
    match lex(source) {
        Err(e) => Err(e),
        Ok(tokens) => parse_tokens(&tokens, source.unicode_len()),
    }
}

} // verus!
