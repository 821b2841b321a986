//! The binary format of values, data tables and contracts.

use bit_reverse::ParallelReverse;
use pact::interpreter::{Comparator, OpCode, OpComp, OpIndices, OpLoad};
use pact::types::{BinaryFormatErr, Contract, DataTable, Numeric, PactType, StringLike};

#[test]
fn base_it_encodes_string_like() {
    let s = PactType::StringLike(StringLike(b"hello world"));
    let buf: &mut Vec<u8> = &mut Vec::new();
    s.encode(buf);
    assert_eq!(buf[0], 0);
    assert_eq!(buf[1].swap_bits(), 11);
    assert_eq!(&buf[2..], "hello world".as_bytes());
}

#[test]
fn types_it_encodes_string_like() {
    let s = PactType::StringLike(StringLike(b"hello world"));
    let buf: &mut Vec<u8> = &mut Vec::new();
    s.encode(buf);
    assert_eq!(buf[0], 0);
    assert_eq!(buf[1].swap_bits(), 11);
    assert_eq!(&buf[2..], "hello world".as_bytes());
}

#[test]
fn base_it_encodes_numeric() {
    let n = PactType::Numeric(Numeric(123));
    let buf: &mut Vec<u8> = &mut Vec::new();
    n.encode(buf);

    let mut expected: Vec<u8> = vec![1, 8, 123, 0, 0, 0, 0, 0, 0, 0];
    expected = expected.into_iter().map(|b| b.swap_bits()).collect(); // convert to LE bit orders
    assert_eq!(buf, &expected);
}

#[test]
fn types_it_encodes_numeric() {
    let n = PactType::Numeric(Numeric(123));
    let buf: &mut Vec<u8> = &mut Vec::new();
    n.encode(buf);

    let mut expected: Vec<u8> = vec![1, 8, 123, 0, 0, 0, 0, 0, 0, 0];
    expected = expected.into_iter().map(|b| b.swap_bits()).collect(); // convert to LE bit orders
    assert_eq!(buf, &expected);
}

#[test]
fn it_encodes_string_list() {
    let l = PactType::List(vec![
        PactType::StringLike(StringLike(b"we're no")),
        PactType::StringLike(StringLike(b"strangers")),
        PactType::StringLike(StringLike(b"to love")),
    ]);
    let buf: &mut Vec<u8> = &mut Vec::new();
    l.encode(buf);

    assert_eq!(buf[0].swap_bits(), 2);
    assert_eq!(buf[1].swap_bits(), 30);
    assert_eq!(buf[2].swap_bits(), 0);
    assert_eq!(buf[3].swap_bits(), 8);
    assert_eq!(&buf[4..12], b"we're no");
    assert_eq!(buf[12].swap_bits(), 0);
    assert_eq!(buf[13].swap_bits(), 9);
    assert_eq!(&buf[14..23], b"strangers");
    assert_eq!(buf[23].swap_bits(), 0);
    assert_eq!(buf[24].swap_bits(), 7);
    assert_eq!(&buf[25..32], b"to love");
}

#[test]
fn it_encodes_numeric_list() {
    let l = PactType::List(vec![
        PactType::Numeric(Numeric(0x0123456789abcdef)),
        PactType::Numeric(Numeric(0xfedcba9876543210)),
    ]);
    let buf: &mut Vec<u8> = &mut Vec::new();
    l.encode(buf);

    let list_header: Vec<u8> = vec![2, 20];
    let item_0: Vec<u8> = vec![1, 8, 0xef, 0xcd, 0xab, 0x89, 0x67, 0x45, 0x23, 0x01];
    let item_1: Vec<u8> = vec![1, 8, 0x10, 0x32, 0x54, 0x76, 0x98, 0xba, 0xdc, 0xfe];
    let mut expected: Vec<u8> = [list_header, item_0, item_1].concat();
    expected = expected.into_iter().map(|b| b.swap_bits()).collect(); // convert to LE bit orders
    assert_eq!(buf, &expected);
}

#[test]
fn base_it_decodes_string_like() {
    let mut buf = vec![0, 11];
    buf = buf.into_iter().map(|b: u8| b.swap_bits()).collect(); // convert to LE bit orders
    buf.extend("hello world".as_bytes());
    let (string_type, bytes_read) = PactType::decode(&buf).expect("it decodes");

    assert_eq!(string_type, PactType::StringLike(StringLike(b"hello world")),);

    assert_eq!(bytes_read, 13usize,);
}

#[test]
fn types_it_decodes_string_like() {
    let mut buf = vec![0, 11];
    buf = buf.into_iter().map(|b: u8| b.swap_bits()).collect(); // convert to LE bit orders
    buf.extend("hello world".as_bytes());
    let (string_type, bytes_read) = PactType::decode(&buf).expect("it decodes");

    assert_eq!(string_type, PactType::StringLike(StringLike(b"hello world")),);

    assert_eq!(bytes_read, 13usize,);
}

#[test]
fn base_it_decodes_numeric() {
    let mut encoded: Vec<u8> = vec![1, 8, 123, 0, 0, 0, 0, 0, 0, 0];
    encoded = encoded.into_iter().map(|b| b.swap_bits()).collect(); // convert to LE bit orders
    let (numeric_type, bytes_read) = PactType::decode(&encoded).expect("it decodes");

    assert_eq!(numeric_type, PactType::Numeric(Numeric(123)));
    assert_eq!(10usize, bytes_read,);
}

#[test]
fn types_it_decodes_numeric() {
    let mut encoded: Vec<u8> = vec![1, 8, 123, 0, 0, 0, 0, 0, 0, 0];
    encoded = encoded.into_iter().map(|b| b.swap_bits()).collect(); // convert to LE bit orders
    let (numeric_type, bytes_read) = PactType::decode(&encoded).expect("it decodes");

    assert_eq!(numeric_type, PactType::Numeric(Numeric(123)));
    assert_eq!(10usize, bytes_read,);
}

#[test]
fn it_decodes_string_lists() {
    let list_header: Vec<u8> = vec![2, 35].into_iter().map(|b: u8| b.swap_bits()).collect();
    let str0_header: Vec<u8> = vec![0, 8].into_iter().map(|b: u8| b.swap_bits()).collect();
    let str1_header: Vec<u8> = vec![0, 9].into_iter().map(|b: u8| b.swap_bits()).collect();
    let str2_header: Vec<u8> = vec![0, 6].into_iter().map(|b: u8| b.swap_bits()).collect();
    let str3_header: Vec<u8> = vec![0, 4].into_iter().map(|b: u8| b.swap_bits()).collect();

    let buf: Vec<u8> = [
        list_header,
        str0_header,
        b"you know".to_vec(),
        str1_header,
        b"the rules".to_vec(),
        str2_header,
        b"and so".to_vec(),
        str3_header,
        b"do I".to_vec(),
    ]
    .concat();

    let (list_type, bytes_read) = PactType::decode(&buf).expect("it decodes");

    let expected = PactType::List(vec![
        PactType::StringLike(StringLike(b"you know")),
        PactType::StringLike(StringLike(b"the rules")),
        PactType::StringLike(StringLike(b"and so")),
        PactType::StringLike(StringLike(b"do I")),
    ]);

    assert_eq!(list_type, expected,);

    assert_eq!(bytes_read, 37usize);
}

#[test]
fn it_fails_with_missing_type_id() {
    assert_eq!(PactType::decode(&[]), Err("missing type ID byte"));
}

#[test]
fn it_fails_with_missing_type_length() {
    assert_eq!(PactType::decode(&[0]), Err("missing type length byte"));
}

#[test]
#[should_panic(expected = "type length > buffer length")]
fn it_fails_with_short_string_like() {
    PactType::decode(&[0, 11]).unwrap();
}

#[test]
#[should_panic(expected = "implementation only supports 64-bit numerics")]
fn it_fails_with_u128_numeric() {
    PactType::decode(&[
        1.swap_bits(),
        16.swap_bits(),
        0,
        0,
        0,
        0,
        0,
        0,
        0,
        0,
        0,
        0,
        0,
        0,
        0,
        0,
        0,
        0,
    ])
    .unwrap();
}

#[test]
fn it_fails_with_unsupported_type_id() {
    assert_eq!(
        PactType::decode(&[3u8.swap_bits(), 0]),
        Err("unsupported type ID")
    );
}

#[test]
fn it_fails_with_list_length_overflow() {
    // A list of two payload bytes whose one element takes three.
    let buf: Vec<u8> = vec![2, 2, 0, 1, b'x']
        .into_iter()
        .map(|b: u8| b.swap_bits())
        .collect();
    assert_eq!(PactType::decode(&buf), Err("list length overflow"));
}

#[test]
fn it_fails_inside_a_list() {
    // The element announces more bytes than the buffer holds.
    let buf: Vec<u8> = vec![2, 3, 0, 9, b'x']
        .into_iter()
        .map(|b: u8| b.swap_bits())
        .collect();
    assert_eq!(PactType::decode(&buf), Err("type length > buffer length"));
}

#[test]
fn it_decodes_an_empty_list_and_an_empty_string() {
    let list: Vec<u8> = vec![2u8.swap_bits(), 0, 0xff];
    assert_eq!(PactType::decode(&list), Ok((PactType::List(vec![]), 2usize)));
    let string: Vec<u8> = vec![0, 0];
    assert_eq!(
        PactType::decode(&string),
        Ok((PactType::StringLike(StringLike(b"")), 2usize))
    );
}

#[test]
fn it_reverses_the_bits_of_header_bytes() {
    let mut buf: Vec<u8> = Vec::new();
    PactType::Numeric(Numeric(1)).encode(&mut buf);
    assert_eq!(buf, vec![0x80, 0x10, 0x80, 0, 0, 0, 0, 0, 0, 0]);
}

#[test]
fn it_appends_to_what_the_buffer_holds() {
    let mut buf: Vec<u8> = vec![7, 7];
    PactType::StringLike(StringLike(b"ab")).encode(&mut buf);
    assert_eq!(buf, vec![7, 7, 0, 0x40, b'a', b'b']);
}

#[test]
fn it_skips_a_list_inside_a_list() {
    let l = PactType::List(vec![
        PactType::List(vec![PactType::Numeric(Numeric(1))]),
        PactType::StringLike(StringLike(b"a")),
    ]);
    let mut buf: Vec<u8> = Vec::new();
    l.encode(&mut buf);
    assert_eq!(buf, vec![2u8.swap_bits(), 3u8.swap_bits(), 0, 1u8.swap_bits(), b'a']);
}

#[test]
fn it_writes_the_length_modulo_256() {
    let long = vec![b'x'; 257];
    let mut buf: Vec<u8> = Vec::new();
    PactType::StringLike(StringLike(&long)).encode(&mut buf);
    assert_eq!(buf.len(), 259);
    assert_eq!(buf[1].swap_bits(), 1);
}

#[test]
fn value_round_trip() {
    let values = vec![
        PactType::Numeric(Numeric(0)),
        PactType::Numeric(Numeric(u64::MAX)),
        PactType::StringLike(StringLike(b"")),
        PactType::StringLike(StringLike(&[0xff; 255])),
        PactType::List(vec![]),
        PactType::List(vec![
            PactType::Numeric(Numeric(42)),
            PactType::StringLike(StringLike(b"mixed")),
        ]),
    ];
    for value in values.iter() {
        let mut buf: Vec<u8> = Vec::new();
        value.encode(&mut buf);
        let length = buf.len();
        buf.extend(&[1, 2, 3]);
        let (decoded, read) = PactType::decode(&buf).expect("it decodes");
        assert_eq!(&decoded, value);
        assert_eq!(read, length);
    }
}

#[test]
fn it_clones_values() {
    let l = PactType::List(vec![
        PactType::Numeric(Numeric(42)),
        PactType::StringLike(StringLike(b"mixed")),
    ]);
    assert_eq!(l.clone(), l);
}

#[test]
fn it_encodes() {
    let table = DataTable::new(vec![
        PactType::Numeric(Numeric(111)),
        PactType::Numeric(Numeric(333)),
        PactType::StringLike(StringLike("testing".as_bytes())),
    ]);
    let mut encoded: Vec<u8> = Vec::new();
    table.encode(&mut encoded);

    // DataTable should simply encode to a concatenated list of it's encoded PactTypes
    let mut expected: Vec<u8> = vec![
        3, // length
        1, 8, 111, 0, 0, 0, 0, 0, 0, 0, // Numeric(111)
        1, 8, 77, 1, 0, 0, 0, 0, 0, 0, // Numeric(333)
    ];
    // StringLike("testing")
    expected.extend(&[0, 7]);
    expected = expected.into_iter().map(|b| b.swap_bits()).collect();
    expected.extend("testing".as_bytes());

    println!("expected: {:?}", expected);

    assert_eq!(encoded, expected,);
}

#[test]
fn it_decodes() {
    let mut buf: Vec<u8> = vec![
        3, // lengths
        1, 8, 111, 0, 0, 0, 0, 0, 0, 0, // Numeric(111)
        1, 8, 77, 1, 0, 0, 0, 0, 0, 0, // Numeric(333)
    ];
    // StringLike("testing")
    buf.extend(&[0, 7]);
    buf = buf.into_iter().map(|b| b.swap_bits()).collect();
    buf.extend("testing".as_bytes());

    let expected = DataTable::new(vec![
        PactType::Numeric(Numeric(111)),
        PactType::Numeric(Numeric(333)),
        PactType::StringLike(StringLike("testing".as_bytes())),
    ]);
    let (result, bytes_read) = DataTable::decode(&buf).expect("it decodes");

    assert_eq!(result, expected);
    assert_eq!(bytes_read, buf.len() as usize);
}

#[test]
fn data_table_push_and_as_ref() {
    let mut table = DataTable::new(vec![PactType::Numeric(Numeric(1))]);
    table.push(PactType::StringLike(StringLike(b"two")));
    assert_eq!(
        table.as_ref(),
        &[
            PactType::Numeric(Numeric(1)),
            PactType::StringLike(StringLike(b"two"))
        ][..]
    );
}

#[test]
fn data_table_decodes_an_empty_table() {
    let (table, read) = DataTable::decode(&[0, 9, 9]).expect("it decodes");
    assert_eq!(table, DataTable::new(vec![]));
    assert_eq!(read, 1usize);
}

#[test]
fn data_table_reports_a_missing_entry() {
    assert_eq!(
        DataTable::decode(&[2u8.swap_bits(), 0, 0]),
        Err("missing type ID byte")
    );
}

#[test]
fn mod_contract_binary_format_unsupported_version() {
    assert_eq!(
        Contract::decode(&[1, 0]),
        Err(BinaryFormatErr::UnsupportedVersion)
    );
}

#[test]
fn mod_contract_binary_format_too_short() {
    assert_eq!(Contract::decode(&[0]), Err(BinaryFormatErr::TooShort));
}

#[test]
fn contract_contract_binary_format_unsupported_version() {
    assert_eq!(
        Contract::decode(&[1, 0]),
        Err(BinaryFormatErr::UnsupportedVersion)
    );
}

#[test]
fn contract_contract_binary_format_too_short() {
    assert_eq!(Contract::decode(&[0]), Err(BinaryFormatErr::TooShort));
}

#[test]
fn contract_binary_format_empty_buffer() {
    assert_eq!(Contract::decode(&[]), Err(BinaryFormatErr::TooShort));
}

#[test]
fn contract_binary_format_codec() {
    let expected = Contract {
        data_table: DataTable::new(vec![
            PactType::Numeric(Numeric(111)),
            PactType::Numeric(Numeric(333)),
            PactType::StringLike(StringLike(b"testing")),
        ]),
        bytecode: [
            // EQ LD_INPUT(0) LD_USER(0)
            OpCode::COMP(Comparator {
                load: OpLoad::INPUT_VS_USER,
                op: OpComp::EQ,
                indices: OpIndices { lhs: 1, rhs: 0 },
                invert: false,
            })
            .into(),
            0x10,
            // EQ LD_INPUT(1) LD_USER(1)
            OpCode::COMP(Comparator {
                load: OpLoad::INPUT_VS_USER,
                op: OpComp::EQ,
                indices: OpIndices { lhs: 1, rhs: 1 },
                invert: false,
            })
            .into(),
            0x11,
        ]
        .to_vec(),
    };

    let mut buf: Vec<u8> = Vec::new();
    expected.encode(&mut buf);

    let result = Contract::decode(&buf).expect("it decodes");

    assert_eq!(result, expected);
}

#[test]
fn contract_binary_format_exact_bytes() {
    let contract = Contract {
        data_table: DataTable::new(vec![PactType::StringLike(StringLike(b"a"))]),
        bytecode: vec![0x00, 0x00],
    };
    let mut buf: Vec<u8> = Vec::new();
    contract.encode(&mut buf);
    assert_eq!(buf, vec![0, 0x80, 0, 0x80, b'a', 0x00, 0x00]);
}

#[test]
fn contract_binary_format_malformed_data_table() {
    let mut malformed_short: Vec<u8> = vec![0, 1];
    assert_eq!(
        Contract::decode(&mut malformed_short),
        Err(BinaryFormatErr::MalformedDataTable("missing type ID byte"))
    );

    let mut bad_type_id = vec![0, 0b1000_0000, 0b0000_0001, 0b0000_0000];
    assert_eq!(
        Contract::decode(&mut bad_type_id),
        Err(BinaryFormatErr::MalformedDataTable("unsupported type ID"))
    );

    let mut numeric_too_small = vec![0, 0b1000_0000, 0b1000_0000, 0b0100_0000, 0, 0];
    assert_eq!(
        Contract::decode(&mut numeric_too_small),
        Err(BinaryFormatErr::MalformedDataTable(
            "implementation only supports 64-bit numerics"
        ))
    );
}
