//! The compiler, from source text to a contract and its result.

use pact::compiler::{self, CompileErr};
use pact::interpreter;
use pact::parser;
use pact::parser::ast;
use pact::types::{Contract, DataTable, Numeric, PactType, StringLike};

#[test]
fn it_compiles() {
    let ast = parser::parse(
        "
          given parameters $a,$b,$user
          define $trusted as [\"Rick Astley\", \"bob\"]
          $a must be less than or equal to 123 and \"hello world\" must not be equal to $b
          $user must be one of $trusted
        ",
    )
    .unwrap();

    let contract = compiler::compile(&ast).unwrap();
    println!("Data Table: {:?}", contract.data_table);
    println!("Bytecode: {:?}", contract.bytecode);

    // The manually crafted input table
    // In normal execution, this contains the transaction arguments
    let input_table = &[
        PactType::Numeric(Numeric(5)),
        PactType::StringLike(StringLike("hello friend".as_bytes())),
        PactType::StringLike(StringLike("Rick Astley".as_bytes())),
    ];
    println!("Input Table: {:?}", input_table);

    let result = interpreter::interpret(
        input_table,
        &contract.data_table.as_ref(),
        &contract.bytecode,
    );

    println!("Result: {:?}", result);
    assert!(result.unwrap());
}

#[test]
fn it_fails_with_a_large_datatable_from_definitions() {
    let ast = parser::parse(
        "
          given parameters $a
          define $X0 as 0
          define $X1 as 1
          define $X2 as 2
          define $X3 as 3
          define $X4 as 4
          define $X5 as 5
          define $X6 as 6
          define $X7 as 7
          define $X8 as 8
          define $X9 as 9
          define $XA as 10
          define $XB as 11
          define $XC as 12
          define $XD as 13
          define $XE as 14
          define $XF as 15
          define $XG as 16
          $a must be less than or equal to $X0
        ",
    )
    .unwrap();
    assert_eq!(compiler::compile(&ast), Err(CompileErr::DataTableFull));
}

#[test]
fn it_fails_with_a_large_datatable_from_values() {
    let ast = parser::parse(
        "
          given parameters $a
          $a must be less than or equal to 0
          $a must be less than or equal to 1
          $a must be less than or equal to 2
          $a must be less than or equal to 3
          $a must be less than or equal to 4
          $a must be less than or equal to 5
          $a must be less than or equal to 6
          $a must be less than or equal to 7
          $a must be less than or equal to 8
          $a must be less than or equal to 9
          $a must be less than or equal to 10
          $a must be less than or equal to 11
          $a must be less than or equal to 12
          $a must be less than or equal to 13
          $a must be less than or equal to 14
          $a must be less than or equal to 15
          $a must be less than or equal to 16
        ",
    )
    .unwrap();
    assert_eq!(compiler::compile(&ast), Err(CompileErr::DataTableFull));
}

#[test]
fn it_fails_with_too_many_inputs() {
    let ast = parser::parse(
        "
          given parameters $x0, $x1, $x2, $x3, $x4, $x5, $x6, $x7, $x8, $x9, $xa, $xb, $xc, $xd, $xe, $xf, $xg
          $xf must be less than or equal to 16
        ",
    ).unwrap();
    assert_eq!(compiler::compile(&ast), Err(CompileErr::TooManyInputs));
}

#[test]
fn it_accepts_sixteen_inputs() {
    let ast = parser::parse(
        "
          given parameters $x0, $x1, $x2, $x3, $x4, $x5, $x6, $x7, $x8, $x9, $xa, $xb, $xc, $xd, $xe, $xf
          $xf must be greater than $x1
        ",
    ).unwrap();
    let contract = compiler::compile(&ast).unwrap();
    assert_eq!(contract.bytecode, vec![0x09, 0xf1]);
    assert_eq!(contract.data_table, DataTable::new(vec![]));
}

#[test]
fn it_accepts_sixteen_entries() {
    let ast = parser::parse(
        "
          given parameters $a
          define $X0 as 0
          define $X1 as 1
          define $X2 as 2
          define $X3 as 3
          define $X4 as 4
          define $X5 as 5
          define $X6 as 6
          define $X7 as 7
          define $X8 as 8
          define $X9 as 9
          define $XA as 10
          define $XB as 11
          define $XC as 12
          define $XD as 13
          define $XE as 14
          $a must be less than or equal to $XE and $a must be greater than 3
        ",
    )
    .unwrap();
    let contract = compiler::compile(&ast).unwrap();
    assert_eq!(contract.data_table.as_ref().len(), 16);
    assert_eq!(contract.bytecode, vec![0x11, 0x0e, 0x20, 0x01, 0x0f]);
}

#[test]
fn happy_path() {
    let ast = parser::parse(
        "
          given parameters $a,$b
          $a must be less than or equal to 123 and $b must be equal to \"hello world\"
        ",
    )
    .unwrap();
    let contract = compiler::compile(&ast).unwrap();
    assert_eq!(
        contract,
        Contract {
            data_table: DataTable::new(vec![
                PactType::Numeric(Numeric(123)),
                PactType::StringLike(StringLike(b"hello world")),
            ]),
            bytecode: vec![0x11, 0x00, 0x20, 0x00, 0x11],
        }
    );
    let input_table = &[
        PactType::Numeric(Numeric(5)),
        PactType::StringLike(StringLike(b"hello world")),
    ];
    assert_eq!(
        interpreter::interpret(input_table, contract.data_table.as_ref(), &contract.bytecode),
        Ok(true)
    );
}

#[test]
fn negated_equality_with_flipped_subjects() {
    let ast = parser::parse(
        "given parameters $a,$b  $a must be less than or equal to 123 and \"hello world\" must not be equal to $b",
    )
    .unwrap();
    let contract = compiler::compile(&ast).unwrap();
    assert_eq!(contract.bytecode, vec![0x11, 0x00, 0x20, 0x10, 0x11]);
    let input_table = &[
        PactType::Numeric(Numeric(5)),
        PactType::StringLike(StringLike(b"hello friend")),
    ];
    assert_eq!(
        interpreter::interpret(input_table, contract.data_table.as_ref(), &contract.bytecode),
        Ok(true)
    );
    let equal = &[
        PactType::Numeric(Numeric(5)),
        PactType::StringLike(StringLike(b"hello world")),
    ];
    assert_eq!(
        interpreter::interpret(equal, contract.data_table.as_ref(), &contract.bytecode),
        Ok(false)
    );
}

#[test]
fn membership_with_a_user_defined_list() {
    let ast = parser::parse(
        "
          given parameters $user
          define $trusted as [\"Rick Astley\", \"bob\"]
          $user must be one of $trusted
        ",
    )
    .unwrap();
    let contract = compiler::compile(&ast).unwrap();
    assert_eq!(
        contract.data_table,
        DataTable::new(vec![PactType::List(vec![
            PactType::StringLike(StringLike(b"Rick Astley")),
            PactType::StringLike(StringLike(b"bob")),
        ])])
    );
    assert_eq!(contract.bytecode, vec![0x03, 0x00]);
    assert_eq!(
        interpreter::interpret(
            &[PactType::StringLike(StringLike(b"Rick Astley"))],
            contract.data_table.as_ref(),
            &contract.bytecode
        ),
        Ok(true)
    );
    assert_eq!(
        interpreter::interpret(
            &[PactType::StringLike(StringLike(b"mallory"))],
            contract.data_table.as_ref(),
            &contract.bytecode
        ),
        Ok(false)
    );
}

#[test]
fn type_mismatch_of_a_string_with_greater_than() {
    let ast = parser::parse("given parameters $a $a must be greater than \"abc\"").unwrap();
    let contract = compiler::compile(&ast).unwrap();
    assert_eq!(
        interpreter::interpret(
            &[PactType::StringLike(StringLike(b"abd"))],
            contract.data_table.as_ref(),
            &contract.bytecode
        ),
        Err(interpreter::InterpErr::BadTypeOperation)
    );
}

#[test]
fn compiled_contract_round_trips() {
    let ast = parser::parse(
        "
          given parameters $a,$b,$user
          define $trusted as [\"Rick Astley\", \"bob\"]
          define $limit as 18446744073709551615
          $a must be less than $limit or $b must be equal to \"\"
          $user must not be one of $trusted
        ",
    )
    .unwrap();
    let contract = compiler::compile(&ast).unwrap();
    let mut buf: Vec<u8> = Vec::new();
    contract.encode(&mut buf);
    assert_eq!(Contract::decode(&buf), Ok(contract));
}

#[test]
fn it_fails_with_an_undeclared_variable() {
    let ast = parser::parse("given parameters $a $a must be equal to $b").unwrap();
    assert_eq!(
        compiler::compile(&ast),
        Err(CompileErr::UndeclaredVar("b".to_string()))
    );
}

#[test]
fn it_fails_with_a_redeclared_input() {
    let ast = parser::parse(
        "given parameters $a define $a as 5 $a must be equal to 5",
    )
    .unwrap();
    assert_eq!(compiler::compile(&ast), Err(CompileErr::Redeclared));
}

#[test]
fn it_fails_with_a_repeated_definition() {
    let ast = parser::parse(
        "given parameters $a define $b as 5 define $b as 6 $a must be equal to $b",
    )
    .unwrap();
    assert_eq!(compiler::compile(&ast), Err(CompileErr::Redeclared));
}

#[test]
fn it_fails_with_a_comparison_of_two_constants() {
    let ast = parser::parse("given parameters $a 5 must be equal to 6").unwrap();
    assert_eq!(compiler::compile(&ast), Err(CompileErr::InvalidCompare));
    let ast = parser::parse(
        "given parameters $a define $b as 5 $b must be equal to \"x\"",
    )
    .unwrap();
    assert_eq!(compiler::compile(&ast), Err(CompileErr::InvalidCompare));
}

#[test]
fn it_fails_with_a_list_in_a_list() {
    let ir = vec![
        ast::Node::InputDeclaration(vec!["a".to_string()]),
        ast::Node::Definition(
            "b".to_string(),
            ast::Value::List(vec![
                ast::Value::Numeric(1),
                ast::Value::List(vec![ast::Value::Numeric(2)]),
            ]),
        ),
    ];
    assert_eq!(compiler::compile(&ir), Err(CompileErr::InvalidListElement));
}

#[test]
fn it_reports_the_first_error() {
    // the name is checked before the value, the value before the room
    let ir = vec![
        ast::Node::InputDeclaration(vec!["a".to_string()]),
        ast::Node::Definition(
            "a".to_string(),
            ast::Value::List(vec![ast::Value::List(vec![])]),
        ),
    ];
    assert_eq!(compiler::compile(&ir), Err(CompileErr::Redeclared));
}

#[test]
fn it_compiles_an_empty_tree() {
    let ir: Vec<ast::Node> = vec![];
    assert_eq!(
        compiler::compile(&ir),
        Ok(Contract {
            data_table: DataTable::new(vec![]),
            bytecode: vec![],
        })
    );
}

#[test]
fn a_later_input_of_the_same_name_wins() {
    let ast = parser::parse("given parameters $a, $b, $a $a must be equal to $b").unwrap();
    let contract = compiler::compile(&ast).unwrap();
    assert_eq!(contract.bytecode, vec![0x08, 0x21]);
}

#[test]
fn a_definition_is_stored_at_the_next_index() {
    // a literal subject takes index 0 before the definition is reached
    let ir = vec![
        ast::Node::InputDeclaration(vec!["a".to_string()]),
        ast::Node::Clause(ast::Assertion(
            ast::Subject::Identifier("a".to_string()),
            ast::Imperative::MustBe,
            ast::Comparator::Equal,
            ast::Subject::Value(ast::Value::Numeric(1)),
            None,
        )),
        ast::Node::Definition("b".to_string(), ast::Value::Numeric(2)),
        ast::Node::Clause(ast::Assertion(
            ast::Subject::Identifier("a".to_string()),
            ast::Imperative::MustBe,
            ast::Comparator::Equal,
            ast::Subject::Identifier("b".to_string()),
            None,
        )),
    ];
    let contract = compiler::compile(&ir).unwrap();
    assert_eq!(contract.bytecode, vec![0x00, 0x00, 0x00, 0x01]);
    assert_eq!(
        contract.data_table,
        DataTable::new(vec![
            PactType::Numeric(Numeric(1)),
            PactType::Numeric(Numeric(2)),
        ])
    );
}

#[test]
fn less_or_equal_compiles_as_not_greater() {
    let pairs = [
        ("must be less than or equal to", "must not be greater than"),
        ("must not be less than or equal to", "must be greater than"),
        ("must be less than", "must not be greater than or equal to"),
        ("must not be less than", "must be greater than or equal to"),
    ];
    for (one, other) in pairs.iter() {
        let first = parser::parse(&format!("given parameters $a, $b $a {} $b or $a {} 7", one, one))
            .unwrap();
        let second = parser::parse(&format!(
            "given parameters $a, $b $a {} $b or $a {} 7",
            other, other
        ))
        .unwrap();
        assert_eq!(compiler::compile(&first), compiler::compile(&second));
    }
}

#[test]
fn mirrored_subjects_compile_alike() {
    let pairs = [
        ("$a must be greater than 5", "5 must be less than $a"),
        ("$a must be greater than or equal to 5", "5 must be less than or equal to $a"),
        ("$a must be less than 5", "5 must be greater than $a"),
        ("$a must not be less than or equal to 5", "5 must not be greater than or equal to $a"),
        ("$a must be equal to \"x\"", "\"x\" must be equal to $a"),
        ("$a must not be equal to 5", "5 must not be equal to $a"),
    ];
    for (one, other) in pairs.iter() {
        let first = parser::parse(&format!("given parameters $a {}", one)).unwrap();
        let second = parser::parse(&format!("given parameters $a {}", other)).unwrap();
        let contract = compiler::compile(&first).unwrap();
        assert_eq!(compiler::compile(&second).unwrap(), contract);
        for value in [4u64, 5, 6].iter() {
            let input = [PactType::Numeric(Numeric(*value))];
            let result =
                interpreter::interpret(&input, contract.data_table.as_ref(), &contract.bytecode);
            assert!(result.is_ok() || result == Err(interpreter::InterpErr::TypeMismatch));
        }
    }
    let ast = parser::parse("given parameters $a 5 must be less than $a").unwrap();
    let contract = compiler::compile(&ast).unwrap();
    assert_eq!(contract.bytecode, vec![0x01, 0x00]);
    let results: Vec<_> = [4u64, 5, 6]
        .iter()
        .map(|value| {
            interpreter::interpret(
                &[PactType::Numeric(Numeric(*value))],
                contract.data_table.as_ref(),
                &contract.bytecode,
            )
        })
        .collect();
    assert_eq!(results, vec![Ok(false), Ok(false), Ok(true)]);
}

#[test]
fn compiling_twice_gives_the_same_contract() {
    let source = "
          given parameters $a,$b,$user
          define $trusted as [\"Rick Astley\", \"bob\"]
          $a must be less than or equal to 123 and \"hello world\" must not be equal to $b
          $user must be one of $trusted
        ";
    let first = parser::parse(source).unwrap();
    let second = parser::parse(source).unwrap();
    assert_eq!(first, second);
    assert_eq!(compiler::compile(&first), compiler::compile(&second));
}

#[test]
fn is_compilable_refuses_a_list_subject() {
    let ast = parser::parse("given parameters $a $a must be one of [1, 2]").unwrap();
    assert!(!compiler::is_compilable(&ast));
    let ast = parser::parse(
        "given parameters $a $a must be equal to 1 and [1] must be equal to $a",
    )
    .unwrap();
    assert!(!compiler::is_compilable(&ast));
    let ast = parser::parse("given parameters $a define $l as [1] $a must be one of $l").unwrap();
    assert!(compiler::is_compilable(&ast));
}
