//! The compiler from the syntax tree to a contract: one pass over the nodes,
//! which binds names to indices, moves constants into the data table and
//! emits one comparator per assertion.

use crate::compiler::index::{entries, NameIndex};
use crate::interpreter::{Comparator, Conjunction, OpCode};
use crate::parser::ast;
use crate::parser::ast::{AssertionView, Literal, NodeView, SubjectView};
use crate::types::base::{lemma_list_view, views, Numeric, PactType, StringLike, Value};
use crate::types::contract::{Contract, ContractView};
use crate::types::data_table::DataTable;
use vstd::prelude::*;

pub mod index;
pub mod laws;

pub use crate::types::opcode::{LoadSource, SubjectSource};

verus! {

/// The most inputs that a contract declares, and the most entries that its
/// data table holds.
pub const MAX_ENTRIES: usize = 16;

/// Compilation error
#[derive(Debug, PartialEq)]
pub enum CompileErr {
    /// The identifier used is not declared
    UndeclaredVar(ast::Identifier),
    /// A parameter with the same identifier has already been declared
    Redeclared,
    /// A list holds an element that is no number and no string
    InvalidListElement,
    /// Comparing user data table entries is not valid
    InvalidCompare,
    /// Data table is full
    DataTableFull,
    /// Too Many Input arguments
    TooManyInputs,
}

/// What a compilation error says.
pub ghost enum CompileFault {
    UndeclaredVar(Seq<char>),
    Redeclared,
    InvalidListElement,
    InvalidCompare,
    DataTableFull,
    TooManyInputs,
}

impl View for CompileErr {
    type V = CompileFault;

    open spec fn view(&self) -> CompileFault {
        match self {
            CompileErr::UndeclaredVar(ident) => CompileFault::UndeclaredVar(ident@),
            CompileErr::Redeclared => CompileFault::Redeclared,
            CompileErr::InvalidListElement => CompileFault::InvalidListElement,
            CompileErr::InvalidCompare => CompileFault::InvalidCompare,
            CompileErr::DataTableFull => CompileFault::DataTableFull,
            CompileErr::TooManyInputs => CompileFault::TooManyInputs,
        }
    }
}

/// What the compiler has gathered at some point of its pass.
pub ghost struct Compilation {
    /// The index of each declared input.
    pub inputs: Map<Seq<char>, u8>,
    /// The index of each defined constant in the data table.
    pub users: Map<Seq<char>, u8>,
    /// The data table so far.
    pub data_table: Seq<Value>,
    /// The byte code so far.
    pub bytecode: Seq<u8>,
}

impl Compilation {
    /// The compilation before the first node.
    pub open spec fn start() -> Compilation {
        Compilation {
            inputs: Map::empty(),
            users: Map::empty(),
            data_table: Seq::empty(),
            bytecode: Seq::empty(),
        }
    }

    /// The compilation with `value` at the end of the data table, where the
    /// table has room for it.
    pub open spec fn pushed(self, value: Value) -> Result<Compilation, CompileFault> {
        if self.data_table.len() >= MAX_ENTRIES {
            Err(CompileFault::DataTableFull)
        } else {
            Ok(Compilation { data_table: self.data_table.push(value), ..self })
        }
    }

    /// The compilation with the bytes of `op` at the end of the byte code.
    pub open spec fn emitted(self, op: OpCode) -> Compilation {
        Compilation { bytecode: self.bytecode + op.compiled(), ..self }
    }

    /// The contract that the compilation has gathered.
    pub open spec fn contract(self) -> ContractView {
        ContractView { data_table: self.data_table, bytecode: self.bytecode }
    }
}

/// The inputs after a declaration: each identifier is bound to its place in
/// the declaration, a later one of the same name over an earlier one.
pub open spec fn declared(inputs: Map<Seq<char>, u8>, idents: Seq<Seq<char>>) -> Map<
    Seq<char>,
    u8,
>
    decreases idents.len(),
{
    if idents.len() == 0 {
        inputs
    } else {
        declared(inputs, idents.drop_last()).insert(idents.last(), (idents.len() - 1) as u8)
    }
}

/// The value that a definition puts into the data table: a number, a
/// string, or a list of numbers and strings. A list that holds a list is
/// refused.
pub open spec fn defined_value(value: Literal) -> Result<Value, CompileFault> {
    match value {
        Literal::List(l) => if forall|i: int| 0 <= i < l.len() ==> !(#[trigger] l[i] is List) {
            Ok(value.value())
        } else {
            Err(CompileFault::InvalidListElement)
        },
        _ => Ok(value.value()),
    }
}

/// Whether a subject can be compiled: a list literal cannot.
pub open spec fn subject_is_plain(subject: SubjectView) -> bool {
    !(subject matches SubjectView::Value(v) && v is List)
}

/// Whether no subject of the assertion and of those joined to it is a list
/// literal.
pub open spec fn assertion_is_plain(assertion: AssertionView) -> bool
    decreases assertion,
{
    &&& subject_is_plain(assertion.lhs)
    &&& subject_is_plain(assertion.rhs)
    &&& match assertion.conjoined {
        None => true,
        Some((_, next)) => assertion_is_plain(*next),
    }
}

/// Whether no clause of the tree has a list literal for a subject.
pub open spec fn compilable(ir: Seq<NodeView>) -> bool {
    forall|i: int|
        0 <= i < ir.len() ==> ((#[trigger] ir[i]) matches NodeView::Clause(a)
            ==> assertion_is_plain(a))
}

/// Where a subject is loaded from. A literal goes to the end of the data
/// table; an identifier is looked up among the inputs first, then among the
/// definitions.
pub open spec fn subject_compiled(state: Compilation, subject: SubjectView) -> Result<
    (Compilation, SubjectSource),
    CompileFault,
> {
    match subject {
        SubjectView::Value(value) => match state.pushed(value.value()) {
            Err(e) => Err(e),
            Ok(next) => Ok(
                (
                    next,
                    SubjectSource {
                        load_source: LoadSource::DataTable,
                        index: state.data_table.len() as u8,
                    },
                ),
            ),
        },
        SubjectView::Identifier(ident) => if state.inputs.contains_key(ident) {
            Ok((state, SubjectSource { load_source: LoadSource::Input, index: state.inputs[ident] }))
        } else if state.users.contains_key(ident) {
            Ok(
                (
                    state,
                    SubjectSource { load_source: LoadSource::DataTable, index: state.users[ident] },
                ),
            )
        } else {
            Err(CompileFault::UndeclaredVar(ident))
        },
    }
}

/// The comparator of an assertion whose subjects are loaded from `lhs` and
/// `rhs`.
pub open spec fn comparator_of(
    imperative: ast::Imperative,
    comparator: ast::Comparator,
    lhs: SubjectSource,
    rhs: SubjectSource,
) -> Comparator {
    Comparator::of_ast(comparator).under(imperative).loaded(lhs, rhs)
}

/// The compilation after an assertion and those joined to it: the left
/// subject, the right subject, the comparator, then the conjunction and the
/// next assertion, if there is one.
pub open spec fn assertion_compiled(state: Compilation, assertion: AssertionView) -> Result<
    Compilation,
    CompileFault,
>
    decreases assertion,
{
    match subject_compiled(state, assertion.lhs) {
        Err(e) => Err(e),
        Ok((with_lhs, lhs)) => match subject_compiled(with_lhs, assertion.rhs) {
            Err(e) => Err(e),
            Ok((with_rhs, rhs)) => if lhs.load_source is DataTable && rhs.load_source
                is DataTable {
                Err(CompileFault::InvalidCompare)
            } else {
                let compared = with_rhs.emitted(
                    OpCode::COMP(
                        comparator_of(assertion.imperative, assertion.comparator, lhs, rhs),
                    ),
                );
                match assertion.conjoined {
                    None => Ok(compared),
                    Some((conjunctive, next)) => assertion_compiled(
                        compared.emitted(OpCode::CONJ(Conjunction::of_ast(conjunctive))),
                        *next,
                    ),
                }
            },
        },
    }
}

/// The compilation after one node.
pub open spec fn node_compiled(state: Compilation, node: NodeView) -> Result<
    Compilation,
    CompileFault,
> {
    match node {
        NodeView::InputDeclaration(idents) => if idents.len() > MAX_ENTRIES {
            Err(CompileFault::TooManyInputs)
        } else {
            Ok(Compilation { inputs: declared(state.inputs, idents), ..state })
        },
        NodeView::Clause(assertion) => assertion_compiled(state, assertion),
        NodeView::Definition(ident, value) => if state.inputs.contains_key(ident)
            || state.users.contains_key(ident) {
            Err(CompileFault::Redeclared)
        } else {
            match defined_value(value) {
                Err(e) => Err(e),
                Ok(v) => match state.pushed(v) {
                    Err(e) => Err(e),
                    Ok(next) => Ok(
                        Compilation {
                            users: state.users.insert(ident, state.data_table.len() as u8),
                            ..next
                        },
                    ),
                },
            }
        },
    }
}

/// The compilation after the nodes of `ir`, in order; the first error ends
/// it.
pub open spec fn nodes_compiled(state: Compilation, ir: Seq<NodeView>) -> Result<
    Compilation,
    CompileFault,
>
    decreases ir.len(),
{
    if ir.len() == 0 {
        Ok(state)
    } else {
        match node_compiled(state, ir[0]) {
            Err(e) => Err(e),
            Ok(next) => nodes_compiled(next, ir.skip(1)),
        }
    }
}

/// The contract that a syntax tree compiles to.
pub open spec fn compilation(ir: Seq<NodeView>) -> Result<ContractView, CompileFault> {
    match nodes_compiled(Compilation::start(), ir) {
        Err(e) => Err(e),
        Ok(state) => Ok(state.contract()),
    }
}

/// The number or string that a literal which is no list stands for.
fn primitive<'a>(value: &'a ast::Value) -> (r: PactType<'a>)
    requires
        !(value is List),
    ensures
        r@ == value@.value(),
        !(r@ is List),
{
    match value {
        ast::Value::Numeric(n) => PactType::Numeric(Numeric(*n)),
        ast::Value::StringLike(s) => PactType::StringLike(StringLike(s.as_str().as_bytes())),
        ast::Value::List(_) => unreached(),
    }
}

/// The value that a definition puts into the data table.
fn definition<'a>(value: &'a ast::Value) -> (r: Result<PactType<'a>, CompileErr>)
    ensures
        match defined_value(value@) {
            Ok(v) => r matches Ok(p) && p@ == v,
            Err(e) => r matches Err(fault) && fault@ == e,
        },
{
    match value {
        ast::Value::List(l) => {
            let mut list: Vec<PactType<'a>> = Vec::with_capacity(l.len());
            let mut i: usize = 0;
            while i < l.len()
                invariant
                    i <= l.len(),
                    *value == ast::Value::List(*l),
                    forall|k: int| 0 <= k < i ==> !(#[trigger] l[k] is List),
                    views(list@) == ast::values(ast::literals(l@.take(i as int))),
                decreases l.len() - i,
            {
                let element = &l[i];
                if let ast::Value::List(_) = element {
                    proof {
                        ast::lemma_list_literal(*l);
                        assert(ast::literals(l@)[i as int] == l[i as int]@);
                    }
                    return Err(CompileErr::InvalidListElement);
                }
                let ghost before = list@;
                let item = primitive(element);
                list.push(item);
                i += 1;
                proof {
                    assert(list@ =~= before.push(item));
                    assert(l@.take(i as int) =~= l@.take(i - 1).push(l[i - 1]));
                    assert(views(before.push(item)) =~= views(before).push(item@));
                    assert(ast::literals(l@.take(i - 1).push(l[i - 1])) =~= ast::literals(
                        l@.take(i - 1),
                    ).push(l[i - 1]@));
                    assert(ast::values(ast::literals(l@.take(i - 1)).push(l[i - 1]@))
                        =~= ast::values(ast::literals(l@.take(i - 1))).push(l[i - 1]@.value()));
                }
            }
            proof {
                assert(l@.take(i as int) =~= l@);
                lemma_list_view(list);
                ast::lemma_list_literal(*l);
                ast::lemma_list_value(ast::literals(l@));
                assert forall|k: int| 0 <= k < l.len() implies !(#[trigger] ast::literals(
                    l@,
                )[k] is List) by {
                    assert(!(l[k] is List));
                }
            }
            Ok(PactType::List(list))
        },
        _ => Ok(primitive(value)),
    }
}

/// The compiler's working state.
struct Compiler<'a> {
    data_table: Vec<PactType<'a>>,
    bytecode: Vec<u8>,
    // Intermediate store for input var ordering (identity, u8 ordered index)
    input_var_index: NameIndex,
    // Intermediate store for user var definitions (identity, u8 ordered index)
    user_var_index: NameIndex,
}

impl<'a> View for Compiler<'a> {
    type V = Compilation;

    closed spec fn view(&self) -> Compilation {
        Compilation {
            inputs: entries(self.input_var_index),
            users: entries(self.user_var_index),
            data_table: views(self.data_table@),
            bytecode: self.bytecode@,
        }
    }
}

impl<'a> Compiler<'a> {
    /// Create a new Compiler
    fn new() -> (r: Self)
        ensures
            r@ == Compilation::start(),
    {
        let r = Compiler {
            data_table: Vec::new(),
            bytecode: Vec::new(),
            input_var_index: NameIndex::new(),
            user_var_index: NameIndex::new(),
        };
        assert(views(r.data_table@) =~= Seq::<Value>::empty());
        r
    }

    fn push_to_datatable(&mut self, value: PactType<'a>) -> (r: Result<(), CompileErr>)
        ensures
            match old(self)@.pushed(value@) {
                Ok(next) => r == Ok::<(), CompileErr>(()) && final(self)@ == next,
                Err(e) => r matches Err(fault) && fault@ == e && final(self)@ == old(self)@,
            },
    {
        if self.data_table.len() >= MAX_ENTRIES {
            Err(CompileErr::DataTableFull)
        } else {
            self.data_table.push(value);
            assert(views(self.data_table@) =~= views(old(self).data_table@).push(value@));
            Ok(())
        }
    }

    /// Compile an assertion AST node
    fn compile_assertion(&mut self, assertion: &'a ast::Assertion) -> (r: Result<(), CompileErr>)
        requires
            assertion_is_plain(assertion@),
        ensures
            match assertion_compiled(old(self)@, assertion@) {
                Ok(next) => r == Ok::<(), CompileErr>(()) && final(self)@ == next,
                Err(e) => r matches Err(fault) && fault@ == e,
            },
        decreases assertion,
    {
        let lhs_load = match self.compile_subject(&assertion.0) {
            Ok(load) => load,
            Err(e) => {
                return Err(e);
            },
        };
        let rhs_load = match self.compile_subject(&assertion.3) {
            Ok(load) => load,
            Err(e) => {
                return Err(e);
            },
        };

        match (lhs_load.load_source, rhs_load.load_source) {
            (LoadSource::DataTable, LoadSource::DataTable) => {
                return Err(CompileErr::InvalidCompare);
            },
            (_, _) => {},
        }

        // Build and compile comparator
        OpCode::COMP(
            Comparator::from(&assertion.2).apply_imperative(&assertion.1).loads_from_subjects(
                lhs_load,
                rhs_load,
            ),
        ).compile(&mut self.bytecode);

        // Handle conjunction if it exists
        if let Some((conjunctive, conjoined_assertion)) = &assertion.4 {
            OpCode::CONJ(Conjunction::from(conjunctive)).compile(&mut self.bytecode);
            self.compile_assertion(&**conjoined_assertion)
        } else {
            Ok(())
        }
    }

    /// Compile a subject AST node
    fn compile_subject(&mut self, subject: &'a ast::Subject) -> (r: Result<
        SubjectSource,
        CompileErr,
    >)
        requires
            subject_is_plain(subject@),
        ensures
            match subject_compiled(old(self)@, subject@) {
                Ok((next, source)) => r == Ok::<SubjectSource, CompileErr>(source) && final(self)@
                    == next,
                Err(e) => r matches Err(fault) && fault@ == e && final(self)@ == old(self)@,
            },
    {
        // `subject` could be a literal value or an identifier
        // A literal value should be stored in the user data table
        // An identifier should have been declared or it is an error
        match subject {
            ast::Subject::Value(value) => {
                let v = primitive(value);
                let position: usize = self.data_table.len();
                assert(views(self.data_table@).len() == position);
                match self.push_to_datatable(v) {
                    Err(e) => Err(e),
                    Ok(_) => Ok(
                        SubjectSource { load_source: LoadSource::DataTable, index: position as u8 },
                    ),
                }
            },
            ast::Subject::Identifier(ident) => {
                // Try lookup this var `ident` in the known input and user data tables
                if let Some(index) = self.input_var_index.get(ident) {
                    return Ok(SubjectSource { load_source: LoadSource::Input, index: index });
                }
                if let Some(index) = self.user_var_index.get(ident) {
                    return Ok(SubjectSource { load_source: LoadSource::DataTable, index: index });
                }
                Err(CompileErr::UndeclaredVar(ident.clone()))
            },
        }
    }

    /// Bind the identifiers of an input declaration to their places in it.
    fn declare_inputs(&mut self, idents: &'a Vec<ast::Identifier>)
        requires
            idents.len() <= MAX_ENTRIES,
        ensures
            final(self)@ == (Compilation {
                inputs: declared(old(self)@.inputs, ast::names(idents@)),
                ..old(self)@
            }),
    {
        let mut index: usize = 0;
        while index < idents.len()
            invariant
                index <= idents.len() <= MAX_ENTRIES,
                self@ == (Compilation {
                    inputs: declared(old(self)@.inputs, ast::names(idents@.take(index as int))),
                    ..old(self)@
                }),
            decreases idents.len() - index,
        {
            self.input_var_index.insert(idents[index].clone(), index as u8);
            proof {
                assert(ast::names(idents@.take(index + 1)).drop_last() =~= ast::names(
                    idents@.take(index as int),
                ));
            }
            index += 1;
        }
        assert(idents@.take(index as int) =~= idents@);
    }

    /// Compile a definition: bind the identifier to the next index of the
    /// data table and put the value there.
    fn compile_definition(&mut self, identifier: &'a ast::Identifier, value: &'a ast::Value) -> (r:
        Result<(), CompileErr>)
        ensures
            match node_compiled(old(self)@, NodeView::Definition(identifier@, value@)) {
                Ok(next) => r == Ok::<(), CompileErr>(()) && final(self)@ == next,
                Err(e) => r matches Err(fault) && fault@ == e,
            },
    {
        if self.input_var_index.contains_key(identifier) {
            return Err(CompileErr::Redeclared);
        }
        if self.user_var_index.contains_key(identifier) {
            return Err(CompileErr::Redeclared);
        }
        let v = match definition(value) {
            Ok(v) => v,
            Err(e) => {
                return Err(e);
            },
        };
        if self.data_table.len() >= MAX_ENTRIES {
            return Err(CompileErr::DataTableFull);
        }
        self.user_var_index.insert(identifier.clone(), self.data_table.len() as u8);
        self.push_to_datatable(v)
    }
}

fn subject_plain(subject: &ast::Subject) -> (r: bool)
    ensures
        r == subject_is_plain(subject@),
{
    match subject {
        ast::Subject::Value(ast::Value::List(_)) => false,
        _ => true,
    }
}

fn assertion_plain(assertion: &ast::Assertion) -> (r: bool)
    ensures
        r == assertion_is_plain(assertion@),
    decreases assertion,
{
    if !subject_plain(&assertion.0) || !subject_plain(&assertion.3) {
        return false;
    }
    match &assertion.4 {
        None => true,
        Some((_, next)) => assertion_plain(&**next),
    }
}

/// Whether `compile` takes the tree: whether no clause of it has a list
/// literal for a subject.
pub fn is_compilable(ir: &[ast::Node]) -> (r: bool)
    ensures
        r == compilable(ast::tree(ir@)),
{
    let mut i: usize = 0;
    while i < ir.len()
        invariant
            i <= ir.len(),
            forall|k: int|
                0 <= k < i ==> ((#[trigger] ast::tree(ir@)[k]) matches NodeView::Clause(a)
                    ==> assertion_is_plain(a)),
        decreases ir.len() - i,
    {
        if let ast::Node::Clause(assertion) = &ir[i] {
            if !assertion_plain(assertion) {
                assert(ast::tree(ir@)[i as int] == NodeView::Clause(assertion@));
                return false;
            }
        }
        i += 1;
    }
    true
}

/// Compile a contract AST into bytecode
pub fn compile<'a>(ir: &'a [ast::Node]) -> (r: Result<Contract<'a>, CompileErr>)
    requires
        compilable(ast::tree(ir@)),
    ensures
        match compilation(ast::tree(ir@)) {
            Ok(contract) => r matches Ok(c) && c@ == contract,
            Err(e) => r matches Err(fault) && fault@ == e,
        },
{
    let mut compiler = Compiler::new();
    let mut i: usize = 0;
    assert(ast::tree(ir@).skip(0) =~= ast::tree(ir@));
    while i < ir.len()
        invariant
            i <= ir.len(),
            compilable(ast::tree(ir@)),
            nodes_compiled(Compilation::start(), ast::tree(ir@)) == nodes_compiled(
                compiler@,
                ast::tree(ir@).skip(i as int),
            ),
        decreases ir.len() - i,
    {
        let ghost rest = ast::tree(ir@).skip(i as int);
        proof {
            assert(rest[0] == ir@[i as int]@);
            assert(rest.skip(1) =~= ast::tree(ir@).skip(i + 1));
            assert(ast::tree(ir@)[i as int] == ir@[i as int]@);
        }
        match &ir[i] {
            ast::Node::InputDeclaration(idents) => {
                if idents.len() > MAX_ENTRIES {
                    return Err(CompileErr::TooManyInputs);
                }
                compiler.declare_inputs(idents);
            },
            ast::Node::Clause(assertion) => {
                match compiler.compile_assertion(assertion) {
                    Ok(_) => {},
                    Err(e) => {
                        return Err(e);
                    },
                }
            },
            ast::Node::Definition(identifier, value) => {
                match compiler.compile_definition(identifier, value) {
                    Ok(_) => {},
                    Err(e) => {
                        return Err(e);
                    },
                }
            },
        }
        i += 1;
    }
    assert(ast::tree(ir@).skip(i as int) =~= Seq::<NodeView>::empty());
    Ok(Contract { data_table: DataTable::new(compiler.data_table), bytecode: compiler.bytecode })
}

} // verus!
