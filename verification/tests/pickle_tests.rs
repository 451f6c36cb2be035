use gamedec::pickle::{Pickle, PickleNumber};
use gamedec::pickle_ops::{PickleError, PickleOpcode, PickleProtocol};
use gamedec::pickle_parse::PickleParser;

const PROTO: u8 = 0x80;
const STOP: u8 = 0x2E;
const EMPTY_DICT: u8 = 0x7D;
const EMPTY_LIST: u8 = 0x5D;
const EMPTY_TUPLE: u8 = 0x29;
const MEMOIZE: u8 = 0x94;
const SHORT_BINUNICODE: u8 = 0x8C;
const APPEND: u8 = 0x61;
const BININT: u8 = 0x4A;
const BININT1: u8 = 0x4B;
const NEWTRUE: u8 = 0x88;
const NONE_OP: u8 = 0x4E;
const BINPUT: u8 = 0x71;
const BINGET: u8 = 0x68;
const MARK: u8 = 0x28;
const TUPLE: u8 = 0x74;
const TUPLE2: u8 = 0x86;
const SETITEM: u8 = 0x73;
const APPENDS: u8 = 0x65;
const GLOBAL: u8 = 0x63;
const REDUCE: u8 = 0x52;
const BUILD: u8 = 0x62;
const SHORT_BINBYTES: u8 = 0x43;
const FRAME: u8 = 0x95;
const PERSID: u8 = 0x50;

fn stream(body: &[u8]) -> Vec<u8> {
    let mut v = vec![PROTO, 4];
    v.extend_from_slice(body);
    v.push(STOP);
    v
}

#[test]
fn empty_dict_scenario() {
    // [PROTO 4][EMPTY_DICT][MEMOIZE][STOP] gives an empty dictionary.
    let data = stream(&[EMPTY_DICT, MEMOIZE]);
    let result = PickleParser::parse(&data).unwrap();
    match result {
        Pickle::Dict(d) => assert_eq!(d.len(), 0),
        other => panic!("expected an empty dict, got {:?}", other),
    }
}

#[test]
fn list_append_scenario() {
    // [PROTO 4][EMPTY_LIST][MEMOIZE][SHORT_BINUNICODE "hello"][APPEND][STOP]
    // gives the one-element list ["hello"].
    let mut body = vec![EMPTY_LIST, MEMOIZE, SHORT_BINUNICODE, 5];
    body.extend_from_slice(b"hello");
    body.push(APPEND);
    let data = stream(&body);
    let result = PickleParser::parse(&data).unwrap();
    match result {
        Pickle::List(items) => {
            assert_eq!(items.len(), 1);
            match &items[0] {
                Pickle::String(s) => assert_eq!(s, "hello"),
                other => panic!("expected a string, got {:?}", other),
            }
        },
        other => panic!("expected a list, got {:?}", other),
    }
}

#[test]
fn unknown_opcode_byte_is_invalid_operation() {
    let data = stream(&[0xFF]);
    let err = PickleParser::parse(&data).unwrap_err();
    assert_eq!(err, PickleError::InvalidOperation(0xFF));
}

#[test]
fn recognized_but_unimplemented_opcode_is_unsupported() {
    let data = stream(&[PERSID]);
    let err = PickleParser::parse(&data).unwrap_err();
    assert_eq!(err, PickleError::UnsupportedOperation(PickleOpcode::PERSID));
}

#[test]
fn protocol_one_is_rejected() {
    let data = vec![PROTO, 1, STOP];
    let err = PickleParser::parse(&data).unwrap_err();
    assert_eq!(
        err,
        PickleError::UnsupportedProtocol(PickleProtocol::Protocol1)
    );
}

#[test]
fn unknown_protocol_byte_is_rejected() {
    let data = vec![PROTO, 9, STOP];
    let err = PickleParser::parse(&data).unwrap_err();
    assert_eq!(err, PickleError::UnknownProtocol(9));
}

#[test]
fn stream_must_begin_with_protocol() {
    let data = vec![EMPTY_DICT, STOP];
    let err = PickleParser::parse(&data).unwrap_err();
    assert_eq!(err, PickleError::PickleInvalidProtocolOperation);
}

#[test]
fn memo_store_and_retrieve_round_trip() {
    // Store the top of stack at index 3, drop nothing, retrieve index 3:
    // the retrieved value equals the stored one.
    let mut body = vec![SHORT_BINUNICODE, 2];
    body.extend_from_slice(b"hi");
    body.extend_from_slice(&[BINPUT, 3, BINGET, 3, TUPLE2]);
    let data = stream(&body);
    let result = PickleParser::parse(&data).unwrap();
    match result {
        Pickle::Tuple(items) => {
            assert_eq!(items.len(), 2);
            for item in &items {
                match item {
                    Pickle::String(s) => assert_eq!(s, "hi"),
                    other => panic!("expected a string, got {:?}", other),
                }
            }
        },
        other => panic!("expected a tuple, got {:?}", other),
    }
}

#[test]
fn memo_retrieval_of_empty_slot_fails() {
    let data = stream(&[NONE_OP, BINPUT, 2, BINGET, 0]);
    let err = PickleParser::parse(&data).unwrap_err();
    assert_eq!(err, PickleError::MemoIndexEmpty);
}

#[test]
fn memo_retrieval_out_of_bounds_fails() {
    let data = stream(&[BINGET, 7]);
    let err = PickleParser::parse(&data).unwrap_err();
    assert_eq!(err, PickleError::MemoIndexOutOfBounds);
}

#[test]
fn mark_group_keeps_push_order() {
    // TUPLE reverses the popped group, so pushing 1, 2, 3 after a mark
    // builds the tuple (3, 2, 1); the group itself came back in push
    // order before the reversal.
    let data = stream(&[MARK, BININT1, 1, BININT1, 2, BININT1, 3, TUPLE]);
    let result = PickleParser::parse(&data).unwrap();
    match result {
        Pickle::Tuple(items) => {
            let got: Vec<u64> = items
                .iter()
                .map(|p| match p {
                    Pickle::Number(PickleNumber::Uint(v)) => *v,
                    other => panic!("expected a number, got {:?}", other),
                })
                .collect();
            assert_eq!(got, vec![3, 2, 1]);
        },
        other => panic!("expected a tuple, got {:?}", other),
    }
}

#[test]
fn pop_to_mark_without_mark_is_stack_error() {
    let data = stream(&[BININT1, 1, TUPLE]);
    let err = PickleParser::parse(&data).unwrap_err();
    assert_eq!(err, PickleError::StackEmpty);
}

#[test]
fn appends_extends_list_in_order() {
    let data = stream(&[
        EMPTY_LIST, MARK, BININT1, 10, BININT1, 20, BININT1, 30, APPENDS,
    ]);
    let result = PickleParser::parse(&data).unwrap();
    match result {
        Pickle::List(items) => {
            let got: Vec<u64> = items
                .iter()
                .map(|p| match p {
                    Pickle::Number(PickleNumber::Uint(v)) => *v,
                    other => panic!("expected a number, got {:?}", other),
                })
                .collect();
            assert_eq!(got, vec![10, 20, 30]);
        },
        other => panic!("expected a list, got {:?}", other),
    }
}

#[test]
fn setitem_binds_string_key() {
    let mut body = vec![EMPTY_DICT, SHORT_BINUNICODE, 3];
    body.extend_from_slice(b"key");
    body.extend_from_slice(&[NEWTRUE, SETITEM]);
    let data = stream(&body);
    let result = PickleParser::parse(&data).unwrap();
    match result {
        Pickle::Dict(d) => {
            assert_eq!(d.len(), 1);
            match Pickle::dict_get(&d, "key") {
                Some(Pickle::Bool(b)) => assert!(*b),
                other => panic!("expected true under the key, got {:?}", other),
            }
        },
        other => panic!("expected a dict, got {:?}", other),
    }
}

#[test]
fn binint_reads_negative_values() {
    let mut body = vec![BININT];
    body.extend_from_slice(&(-7i32).to_le_bytes());
    let data = stream(&body);
    let result = PickleParser::parse(&data).unwrap();
    match result {
        Pickle::Number(PickleNumber::Int(v)) => assert_eq!(v, -7),
        other => panic!("expected a number, got {:?}", other),
    }
}

#[test]
fn global_reduce_build_constructs_class() {
    let mut body = vec![GLOBAL];
    body.extend_from_slice(b"renpy.ast\x0aLabel\x0a");
    body.push(EMPTY_TUPLE);
    body.push(REDUCE);
    body.push(NONE_OP);
    body.push(BUILD);
    let data = stream(&body);
    let result = PickleParser::parse(&data).unwrap();
    match result {
        Pickle::Class(c) => {
            assert_eq!(c.module.module, "renpy.ast");
            assert_eq!(c.module.name, "Label");
            assert!(matches!(*c.args, Pickle::Tuple(_)));
            assert!(matches!(c.state.as_deref(), Some(Pickle::NoneVal)));
        },
        other => panic!("expected a class, got {:?}", other),
    }
}

#[test]
fn frame_hint_is_skipped_and_binbytes_read() {
    let body = vec![
        FRAME, 14, 0, 0, 0, 0, 0, 0, 0, SHORT_BINBYTES, 3, 0xDE, 0xAD, 0xBF,
    ];
    let data = stream(&body);
    let result = PickleParser::parse(&data).unwrap();
    match result {
        Pickle::Binary(b) => assert_eq!(b, vec![0xDE, 0xAD, 0xBF]),
        other => panic!("expected binary, got {:?}", other),
    }
}

#[test]
fn truncated_operand_is_out_of_data() {
    let data = vec![PROTO, 4, SHORT_BINUNICODE, 9, b'h', b'i'];
    let err = PickleParser::parse(&data).unwrap_err();
    assert_eq!(err, PickleError::OutOfData);
}

#[test]
fn narrowing_conversions_check_shape_and_range() {
    assert_eq!(
        Pickle::Number(PickleNumber::Uint(7)).try_u64().unwrap(),
        7
    );
    assert_eq!(
        Pickle::Number(PickleNumber::Int(-1)).try_u64().unwrap_err(),
        PickleError::CannotTryInto
    );
    assert_eq!(
        Pickle::Number(PickleNumber::Uint(u64::MAX)).try_i64().unwrap_err(),
        PickleError::CannotTryInto
    );
    assert_eq!(Pickle::Bool(true).try_bool().unwrap(), true);
    assert_eq!(
        Pickle::NoneVal.try_string().unwrap_err(),
        PickleError::CannotTryInto
    );
}

#[test]
fn pickle_extract() {
    // Walking a nested graph: the second list element, and a dictionary
    // value two levels down.
    let mut dict: Vec<(String, Pickle)> = Vec::new();
    Pickle::dict_set(
        &mut dict,
        String::from("key1"),
        Pickle::String(String::from("Hiii")),
    );
    let pickle = Pickle::List(vec![
        Pickle::Number(PickleNumber::Int(42)),
        Pickle::String(String::from("Hello, World!")),
        Pickle::Dict(dict),
    ]);
    let items = match &pickle {
        Pickle::List(items) => items,
        other => panic!("expected a list, got {:?}", other),
    };
    match &items[1] {
        Pickle::String(s) => assert_eq!(s, "Hello, World!"),
        other => panic!("expected a string, got {:?}", other),
    }
    match &items[2] {
        Pickle::Dict(d) => match Pickle::dict_get(d, "key1") {
            Some(Pickle::String(s)) => assert_eq!(s, "Hiii"),
            other => panic!("expected a string under key1, got {:?}", other),
        },
        other => panic!("expected a dict, got {:?}", other),
    }
}

#[test]
fn dict_set_replaces_existing_binding() {
    let mut dict: Vec<(String, Pickle)> = Vec::new();
    Pickle::dict_set(&mut dict, String::from("k"), Pickle::Bool(false));
    Pickle::dict_set(&mut dict, String::from("k"), Pickle::Bool(true));
    assert_eq!(dict.len(), 1);
    match Pickle::dict_get(&dict, "k") {
        Some(Pickle::Bool(b)) => assert!(*b),
        other => panic!("expected the replaced value, got {:?}", other),
    }
}

#[test]
fn memoize_on_a_mark_is_a_stack_mark_error() {
    let data = stream(&[MARK, MEMOIZE]);
    let err = PickleParser::parse(&data).unwrap_err();
    assert_eq!(err, PickleError::StackMark);
}

#[test]
fn a_second_protocol_declaration_is_rejected() {
    let data = stream(&[PROTO, 4]);
    let err = PickleParser::parse(&data).unwrap_err();
    assert_eq!(err, PickleError::PickleInvalidProtocolOperation);
}

#[test]
fn append_to_a_non_list_cannot_narrow() {
    let data = stream(&[NEWTRUE, NONE_OP, APPEND]);
    let err = PickleParser::parse(&data).unwrap_err();
    assert_eq!(err, PickleError::CannotTryInto);
}

#[test]
fn invalid_utf8_string_operand_is_rejected() {
    let data = stream(&[SHORT_BINUNICODE, 2, 0xFF, 0xFE]);
    let err = PickleParser::parse(&data).unwrap_err();
    assert_eq!(err, PickleError::StringNotUtf8);
}
