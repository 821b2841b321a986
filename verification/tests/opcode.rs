//! The bit layout of opcodes.

use pact::interpreter::{
    Comparator, Conjunction, InterpErr, OpCode, OpComp, OpConj, OpIndices, OpLoad,
};
use pact::parser::ast;
use pact::types::opcode::{LoadSource, SubjectSource};

#[test]
fn compile_comparators_basic() {
    let mut bytes = Vec::<u8>::default();
    OpCode::COMP(Comparator::new(OpComp::EQ)).compile(&mut bytes);
    OpCode::COMP(Comparator::new(OpComp::GT)).compile(&mut bytes);
    OpCode::COMP(Comparator::new(OpComp::GTE)).compile(&mut bytes);
    OpCode::COMP(Comparator::new(OpComp::IN)).compile(&mut bytes);
    assert_eq!(bytes, vec![0x00, 0x00, 0x01, 0x00, 0x02, 0x00, 0x03, 0x00,]);
}

#[test]
fn compile_conjunctions_basic() {
    let mut bytes = Vec::<u8>::default();
    OpCode::CONJ(Conjunction::new(OpConj::AND)).compile(&mut bytes);
    OpCode::CONJ(Conjunction::new(OpConj::OR)).compile(&mut bytes);
    OpCode::CONJ(Conjunction::new(OpConj::XOR)).compile(&mut bytes);
    assert_eq!(bytes, vec![0x20, 0x21, 0x22,]);
}

#[test]
fn compile_comparator_advanced() {
    let mut bytes = Vec::<u8>::default();
    OpCode::COMP(
        Comparator::new(OpComp::EQ)
            .load(OpLoad::INPUT_VS_INPUT)
            .invert()
            .indices(11, 3),
    )
    .compile(&mut bytes);
    assert_eq!(bytes, vec![0x18, 0xb3]);
}

#[test]
fn compile_conjunction_advanced() {
    let mut bytes = Vec::<u8>::default();
    OpCode::CONJ(Conjunction::new(OpConj::OR).invert()).compile(&mut bytes);
    assert_eq!(bytes, vec![0x31]);
}

#[test]
fn parse_comparator_basic() {
    let mut stream: &[u8] = &[0x00_u8, 0x00_u8];
    let op_code = OpCode::parse(&mut stream).unwrap();
    assert_eq!(op_code, Some(OpCode::COMP(Comparator::new(OpComp::EQ))));
}

#[test]
fn parse_comparator_gt() {
    let mut stream: &[u8] = &[0x01_u8, 0x00_u8];
    let op_code = OpCode::parse(&mut stream).unwrap();
    assert_eq!(op_code, Some(OpCode::COMP(Comparator::new(OpComp::GT))));
}

#[test]
fn parse_comparator_indicies() {
    let mut stream: &[u8] = &[0x00_u8, 0x5c_u8];
    let op_code = OpCode::parse(&mut stream).unwrap();
    assert_eq!(
        op_code,
        Some(OpCode::COMP(Comparator::new(OpComp::EQ).indices(5, 12)))
    );
}

#[test]
fn parse_comparator_advanced() {
    let mut stream: &[u8] = &[0x18_u8, 0x27_u8];
    let op_code = OpCode::parse(&mut stream).unwrap();
    assert_eq!(
        op_code,
        Some(OpCode::COMP(
            Comparator::new(OpComp::EQ)
                .invert()
                .load(OpLoad::INPUT_VS_INPUT)
                .indices(2, 7)
        ))
    );
}

#[test]
fn parse_comparator_invalid() {
    let mut stream: &[u8] = &[0x07_u8, 0x00_u8];
    assert_eq!(
        OpCode::parse(&mut stream),
        Err(InterpErr::InvalidOpCode(0x07))
    );
}

#[test]
fn parse_comparator_missing_indices() {
    let mut stream: &[u8] = &[0x00_u8];
    assert_eq!(
        OpCode::parse(&mut stream),
        Err(InterpErr::UnexpectedEOI("expected index"))
    );
}

#[test]
fn parse_conjunction_basic() {
    let mut stream: &[u8] = &[0x20_u8];
    let op_code = OpCode::parse(&mut stream).unwrap();
    assert_eq!(op_code, Some(OpCode::CONJ(Conjunction::new(OpConj::AND))));
}

#[test]
fn parse_conjunction_xor() {
    let mut stream: &[u8] = &[0x22_u8];
    let op_code = OpCode::parse(&mut stream).unwrap();
    assert_eq!(op_code, Some(OpCode::CONJ(Conjunction::new(OpConj::XOR))));
}

#[test]
fn parse_conjunction_advanced() {
    let mut stream: &[u8] = &[0x31_u8];
    assert_eq!(
        OpCode::parse(&mut stream).unwrap(),
        Some(OpCode::CONJ(Conjunction::new(OpConj::OR).invert()))
    );
}

#[test]
fn parse_conjunction_invalid() {
    let mut stream: &[u8] = &[0x2f_u8];
    assert_eq!(
        OpCode::parse(&mut stream),
        Err(InterpErr::InvalidOpCode(0x2f))
    );
}

#[test]
fn parse_end_of_input() {
    let mut stream: &[u8] = &[];
    assert_eq!(OpCode::parse(&mut stream), Ok(None));
    assert_eq!(stream.len(), 0);
}

#[test]
fn parse_advances_the_stream() {
    let mut stream: &[u8] = &[0x00, 0x12, 0x21, 0x03, 0x45, 0x07];
    assert_eq!(
        OpCode::parse(&mut stream),
        Ok(Some(OpCode::COMP(Comparator::new(OpComp::EQ).indices(1, 2))))
    );
    assert_eq!(stream, &[0x21, 0x03, 0x45, 0x07]);
    assert_eq!(
        OpCode::parse(&mut stream),
        Ok(Some(OpCode::CONJ(Conjunction::new(OpConj::OR))))
    );
    assert_eq!(stream, &[0x03, 0x45, 0x07]);
    assert_eq!(
        OpCode::parse(&mut stream),
        Ok(Some(OpCode::COMP(Comparator::new(OpComp::IN).indices(4, 5))))
    );
    assert_eq!(stream, &[0x07]);
    assert_eq!(OpCode::parse(&mut stream), Err(InterpErr::InvalidOpCode(0x07)));
    assert_eq!(stream.len(), 0);
}

#[test]
fn parse_ignores_the_two_high_bits() {
    let mut stream: &[u8] = &[0xe1];
    assert_eq!(
        OpCode::parse(&mut stream),
        Ok(Some(OpCode::CONJ(Conjunction::new(OpConj::OR))))
    );
}

#[test]
fn opcode_round_trip() {
    let loads = [OpLoad::INPUT_VS_USER, OpLoad::INPUT_VS_INPUT];
    let ops = [OpComp::EQ, OpComp::GT, OpComp::GTE, OpComp::IN];
    for load in loads.iter() {
        for op in ops.iter() {
            for invert in [false, true].iter() {
                for lhs in 0..16u8 {
                    for rhs in 0..16u8 {
                        let code = OpCode::COMP(Comparator {
                            load: *load,
                            op: *op,
                            indices: OpIndices { lhs, rhs },
                            invert: *invert,
                        });
                        let mut bytes = Vec::<u8>::new();
                        code.compile(&mut bytes);
                        assert_eq!(bytes.len(), 2);
                        let mut stream: &[u8] = &bytes;
                        assert_eq!(OpCode::parse(&mut stream), Ok(Some(code)));
                        assert_eq!(stream.len(), 0);
                    }
                }
            }
        }
    }
    for op in [OpConj::AND, OpConj::OR, OpConj::XOR].iter() {
        for invert in [false, true].iter() {
            let code = OpCode::CONJ(Conjunction {
                op: *op,
                invert: *invert,
            });
            let mut bytes = Vec::<u8>::new();
            code.compile(&mut bytes);
            assert_eq!(bytes.len(), 1);
            let mut stream: &[u8] = &bytes;
            assert_eq!(OpCode::parse(&mut stream), Ok(Some(code)));
        }
    }
}

#[test]
fn indices_keep_their_low_nibbles() {
    let byte: u8 = OpIndices { lhs: 0x1f, rhs: 0x2e }.into();
    assert_eq!(byte, 0xfe);
}

#[test]
fn parts_convert_to_their_bits() {
    let load: u8 = OpLoad::INPUT_VS_INPUT.into();
    assert_eq!(load, 0x08);
    let user: u8 = OpLoad::INPUT_VS_USER.into();
    assert_eq!(user, 0x00);
    let comp: u8 = OpComp::IN.into();
    assert_eq!(comp, 3);
    let conj: u8 = OpConj::XOR.into();
    assert_eq!(conj, 2);
}

#[test]
fn flip_indices_changes_sides() {
    let gt = Comparator::new(OpComp::GT).indices(1, 2).flip_indices();
    assert_eq!(gt, Comparator::new(OpComp::GTE).indices(2, 1).invert());
    let gte = Comparator::new(OpComp::GTE).invert().indices(1, 2).flip_indices();
    assert_eq!(gte, Comparator::new(OpComp::GT).indices(2, 1));
    let eq = Comparator::new(OpComp::EQ).invert().indices(3, 4).flip_indices();
    assert_eq!(eq, Comparator::new(OpComp::EQ).invert().indices(4, 3));
    let within = Comparator::new(OpComp::IN).indices(3, 4).flip_indices();
    assert_eq!(within, Comparator::new(OpComp::IN).indices(4, 3));
}

#[test]
fn loads_from_subjects_picks_the_load() {
    let input = |index| SubjectSource {
        load_source: LoadSource::Input,
        index,
    };
    let table = |index| SubjectSource {
        load_source: LoadSource::DataTable,
        index,
    };
    assert_eq!(
        Comparator::new(OpComp::GT).loads_from_subjects(input(1), input(2)),
        Comparator::new(OpComp::GT)
            .load(OpLoad::INPUT_VS_INPUT)
            .indices(1, 2)
    );
    assert_eq!(
        Comparator::new(OpComp::GT).loads_from_subjects(input(1), table(2)),
        Comparator::new(OpComp::GT).indices(1, 2)
    );
    assert_eq!(
        Comparator::new(OpComp::GT).loads_from_subjects(table(1), input(2)),
        Comparator::new(OpComp::GTE).invert().indices(2, 1)
    );
    assert_eq!(
        Comparator::new(OpComp::EQ).loads_from_subjects(table(1), table(2)),
        Comparator::new(OpComp::EQ).indices(2, 1)
    );
}

#[test]
fn apply_imperative_toggles_invert() {
    let lt = Comparator::from(&ast::Comparator::LessThan);
    assert_eq!(lt, Comparator::new(OpComp::GTE).invert());
    assert_eq!(lt.apply_imperative(&ast::Imperative::MustBe), lt);
    assert_eq!(
        lt.apply_imperative(&ast::Imperative::MustNotBe),
        Comparator::new(OpComp::GTE)
    );
    assert_eq!(
        Comparator::new(OpComp::EQ).apply_imperative(&ast::Imperative::MustNotBe),
        Comparator::new(OpComp::EQ).invert()
    );
}

#[test]
fn comparators_of_the_surface_syntax() {
    assert_eq!(
        Comparator::from(&ast::Comparator::Equal),
        Comparator::new(OpComp::EQ)
    );
    assert_eq!(
        Comparator::from(&ast::Comparator::GreaterThan),
        Comparator::new(OpComp::GT)
    );
    assert_eq!(
        Comparator::from(&ast::Comparator::GreaterThanOrEqual),
        Comparator::new(OpComp::GTE)
    );
    assert_eq!(
        Comparator::from(&ast::Comparator::LessThanOrEqual),
        Comparator::new(OpComp::GT).invert()
    );
    assert_eq!(
        Comparator::from(&ast::Comparator::OneOf),
        Comparator::new(OpComp::IN)
    );
    assert_eq!(
        Conjunction::from(&ast::Conjunctive::And),
        Conjunction::new(OpConj::AND)
    );
    assert_eq!(
        Conjunction::from(&ast::Conjunctive::Or),
        Conjunction::new(OpConj::OR)
    );
}

#[test]
fn less_or_equal_is_not_greater() {
    for imperative in [ast::Imperative::MustBe, ast::Imperative::MustNotBe].iter() {
        let other = match imperative {
            ast::Imperative::MustBe => ast::Imperative::MustNotBe,
            ast::Imperative::MustNotBe => ast::Imperative::MustBe,
        };
        assert_eq!(
            Comparator::from(&ast::Comparator::LessThanOrEqual).apply_imperative(imperative),
            Comparator::from(&ast::Comparator::GreaterThan).apply_imperative(&other)
        );
        assert_eq!(
            Comparator::from(&ast::Comparator::LessThan).apply_imperative(imperative),
            Comparator::from(&ast::Comparator::GreaterThanOrEqual).apply_imperative(&other)
        );
    }
}
