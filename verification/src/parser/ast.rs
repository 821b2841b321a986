//! The abstract syntax tree of a contract: an input declaration, definitions
//! and clauses.

use vstd::prelude::*;
use vstd::utf8::encode_utf8;

verus! {

/// The name of an input or of a definition.
pub type Identifier = String;

/// AST node types
#[derive(Debug, PartialEq)]
pub enum Node {
    /// The declaration of input variable names for the contract
    InputDeclaration(Vec<Identifier>),
    /// A statement mapping an identifier to a value
    /// (identifier, value) e.g. ("account", "Qm53w689adflkhnknkjhkj")
    Definition(Identifier, Value),
    /// A high-level construct formed by one or more conjoined assertions
    Clause(Assertion),
}

/// A primitive construct which describes a single invariant
/// (subject, imperative, comparator, subject) and what is joined to it.
#[derive(Debug, PartialEq)]
pub struct Assertion(
    pub Subject,
    pub Imperative,
    pub Comparator,
    pub Subject,
    pub Option<(Conjunctive, Box<Assertion>)>,
);

/// `MustBe` implies `Comparator == true` while `MustNotBe` implies `Comparator == false`
#[derive(Debug, Clone, Copy, PartialEq)]
pub enum Imperative {
    MustBe,
    MustNotBe,
}

/// Represents a logical join of two clauses
#[derive(Debug, Clone, Copy, PartialEq)]
pub enum Conjunctive {
    Or,
    And,
}

/// A logical operation to assert
#[derive(Debug, Clone, Copy, PartialEq)]
pub enum Comparator {
    Equal,
    GreaterThan,
    GreaterThanOrEqual,
    LessThan,
    LessThanOrEqual,
    OneOf,
}

/// A subject of a comparator (LHS / RHS).
/// It may be a literal value or an identifier
#[derive(Debug, PartialEq)]
pub enum Subject {
    Value(Value),
    Identifier(Identifier),
}

/// A literal value, used in place for a comparator or on the RHS of a definition
#[derive(Debug, PartialEq)]
pub enum Value {
    StringLike(String),
    Numeric(u64),
    List(Vec<Value>),
}

/// What a literal says: a string as its characters, a number, or a list of
/// literals.
pub ghost enum Literal {
    StringLike(Seq<char>),
    Numeric(u64),
    List(Seq<Literal>),
}

/// What a subject says.
pub ghost enum SubjectView {
    Value(Literal),
    Identifier(Seq<char>),
}

/// What an assertion says, with what is joined to it.
pub ghost struct AssertionView {
    pub lhs: SubjectView,
    pub imperative: Imperative,
    pub comparator: Comparator,
    pub rhs: SubjectView,
    pub conjoined: Option<(Conjunctive, Box<AssertionView>)>,
}

/// What a node says.
pub ghost enum NodeView {
    InputDeclaration(Seq<Seq<char>>),
    Definition(Seq<char>, Literal),
    Clause(AssertionView),
}

impl Literal {
    /// The value that the literal stands for; a string stands for its bytes
    /// in UTF-8.
    pub open spec fn value(self) -> crate::types::Value
        decreases self,
    {
        match self {
            Literal::StringLike(s) => crate::types::Value::StringLike(encode_utf8(s)),
            Literal::Numeric(n) => crate::types::Value::Numeric(n),
            Literal::List(l) => crate::types::Value::List(
                Seq::new(
                    l.len(),
                    |i: int|
                        if 0 <= i < l.len() {
                            l[i].value()
                        } else {
                            arbitrary()
                        },
                ),
            ),
        }
    }
}

/// The values that a sequence of literals stands for.
pub open spec fn values(l: Seq<Literal>) -> Seq<crate::types::Value> {
    l.map_values(|v: Literal| v.value())
}

/// A list literal stands for the list of what its elements stand for.
pub proof fn lemma_list_value(l: Seq<Literal>)
    ensures
        Literal::List(l).value() == crate::types::Value::List(values(l)),
{
    reveal_with_fuel(Literal::value, 2);
    assert(Literal::List(l).value()->List_0 =~= values(l));
}

impl Value {
    /// What the literal says.
    pub open spec fn model(&self) -> Literal
        decreases self,
    {
        match self {
            Value::StringLike(s) => Literal::StringLike(s@),
            Value::Numeric(n) => Literal::Numeric(*n),
            Value::List(l) => Literal::List(
                Seq::new(
                    l.len() as nat,
                    |i: int|
                        if 0 <= i < l.len() {
                            l[i].model()
                        } else {
                            arbitrary()
                        },
                ),
            ),
        }
    }
}

impl View for Value {
    type V = Literal;

    open spec fn view(&self) -> Literal {
        self.model()
    }
}

/// What a sequence of literals says.
pub open spec fn literals(l: Seq<Value>) -> Seq<Literal> {
    l.map_values(|v: Value| v@)
}

/// A list literal says what its elements say, in order.
pub proof fn lemma_list_literal(l: Vec<Value>)
    ensures
        Value::List(l)@ == Literal::List(literals(l@)),
{
    reveal_with_fuel(Value::model, 2);
    assert(Value::List(l)@->List_0 =~= literals(l@));
}

impl View for Subject {
    type V = SubjectView;

    open spec fn view(&self) -> SubjectView {
        match self {
            Subject::Value(v) => SubjectView::Value(v@),
            Subject::Identifier(ident) => SubjectView::Identifier(ident@),
        }
    }
}

impl Assertion {
    /// What the assertion says.
    pub open spec fn model(&self) -> AssertionView
        decreases self,
    {
        AssertionView {
            lhs: self.0@,
            imperative: self.1,
            comparator: self.2,
            rhs: self.3@,
            conjoined: match self.4 {
                None => None,
                Some((conjunctive, next)) => Some((conjunctive, Box::new(next.model()))),
            },
        }
    }
}

impl View for Assertion {
    type V = AssertionView;

    open spec fn view(&self) -> AssertionView {
        self.model()
    }
}

/// What a sequence of identifiers says.
pub open spec fn names(idents: Seq<Identifier>) -> Seq<Seq<char>> {
    idents.map_values(|ident: Identifier| ident@)
}

impl View for Node {
    type V = NodeView;

    open spec fn view(&self) -> NodeView {
        match self {
            Node::InputDeclaration(idents) => NodeView::InputDeclaration(names(idents@)),
            Node::Definition(ident, value) => NodeView::Definition(ident@, value@),
            Node::Clause(assertion) => NodeView::Clause(assertion@),
        }
    }
}

/// What a syntax tree says.
pub open spec fn tree(ir: Seq<Node>) -> Seq<NodeView> {
    ir.map_values(|node: Node| node@)
}

impl Clone for Value {
    fn clone(&self) -> (r: Self)
        ensures
            r@ == self@,
        decreases self,
    {
        match self {
            Value::StringLike(s) => Value::StringLike(s.clone()),
            Value::Numeric(n) => Value::Numeric(*n),
            Value::List(l) => {
                let mut items: Vec<Value> = Vec::new();
                let mut i: usize = 0;
                while i < l.len()
                    invariant
                        i <= l.len(),
                        self matches Value::List(v) && v == *l,
                        literals(items@) == literals(l@.take(i as int)),
                    decreases l.len() - i,
                {
                    let ghost before = items@;
                    let item = l[i].clone();
                    items.push(item);
                    i += 1;
                    proof {
                        assert(items@ =~= before.push(item));
                        assert(l@.take(i as int) =~= l@.take(i - 1).push(l[i - 1]));
                        assert(literals(before.push(item)) =~= literals(before).push(item@));
                        assert(literals(l@.take(i - 1).push(l[i - 1])) =~= literals(
                            l@.take(i - 1),
                        ).push(l[i - 1]@));
                    }
                }
                proof {
                    assert(l@.take(i as int) =~= l@);
                    lemma_list_literal(items);
                    lemma_list_literal(*l);
                }
                Value::List(items)
            },
        }
    }
}

} // verus!
