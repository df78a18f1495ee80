use mini_redis::helpers::{Helper, Reply};
use mini_redis::parser::{DS, RESPParser};

fn parse_bytes(bytes: &[u8]) -> Result<DS, mini_redis::parser::ProtocolError> {
    let mut parser = RESPParser::new();
    parser.register(&bytes.to_vec());
    parser.parse()
}

#[test]
fn parse_simple_string() {
    match parse_bytes(b"+PONG\r\n") {
        Ok(DS::SimpleString(text)) => assert_eq!(text, b"PONG".to_vec()),
        _ => panic!("expected a simple string"),
    }
}

#[test]
fn parse_bulk_string() {
    match parse_bytes(b"$5\r\nhello\r\n") {
        Ok(DS::BulkString(text)) => assert_eq!(text, b"hello".to_vec()),
        _ => panic!("expected a bulk string"),
    }
}

#[test]
fn parse_empty_bulk_string() {
    match parse_bytes(b"$0\r\n\r\n") {
        Ok(DS::BulkString(text)) => assert_eq!(text, b"".to_vec()),
        _ => panic!("expected an empty bulk string"),
    }
}

#[test]
fn parse_array_of_bulk_strings() {
    match parse_bytes(b"*2\r\n$4\r\nECHO\r\n$3\r\nhey\r\n") {
        Ok(DS::RedArray(arr)) => {
            assert_eq!(arr.length, 2);
            assert_eq!(arr.value.len(), 2);
            match &arr.value[0] {
                DS::BulkString(b) => assert_eq!(b, &b"ECHO".to_vec()),
                _ => panic!("expected a bulk string element"),
            }
            match &arr.value[1] {
                DS::BulkString(b) => assert_eq!(b, &b"hey".to_vec()),
                _ => panic!("expected a bulk string element"),
            }
        },
        _ => panic!("expected an array"),
    }
}

#[test]
fn parse_nested_array() {
    match parse_bytes(b"*2\r\n*1\r\n+ok\r\n$1\r\nx\r\n") {
        Ok(DS::RedArray(arr)) => {
            assert_eq!(arr.length, 2);
            match &arr.value[0] {
                DS::RedArray(inner) => {
                    assert_eq!(inner.length, 1);
                    match &inner.value[0] {
                        DS::SimpleString(s) => assert_eq!(s, &b"ok".to_vec()),
                        _ => panic!("expected a simple string"),
                    }
                },
                _ => panic!("expected a nested array"),
            }
        },
        _ => panic!("expected an array"),
    }
}

#[test]
fn parse_rejects_unknown_marker() {
    assert!(parse_bytes(b"def\r\n").is_err());
    assert!(parse_bytes(b"").is_err());
}

#[test]
fn parse_rejects_truncated_bulk() {
    assert!(parse_bytes(b"$10\r\nshort\r\n").is_err());
    assert!(parse_bytes(b"$5\r\nhello").is_err());
}

#[test]
fn parse_rejects_missing_terminator() {
    assert!(parse_bytes(b"+PONG").is_err());
    assert!(parse_bytes(b"$5\r\nhelloXY").is_err());
}

#[test]
fn parse_rejects_bad_length_field() {
    assert!(parse_bytes(b"$\r\nx\r\n").is_err());
    assert!(parse_bytes(b"$-1\r\n").is_err());
    assert!(parse_bytes(b"$99999999999\r\nx\r\n").is_err());
}

#[test]
fn parse_accepts_a_leading_zero_length_field() {
    match parse_bytes(b"$05\r\nhello\r\n") {
        Ok(DS::BulkString(text)) => assert_eq!(text, b"hello".to_vec()),
        _ => panic!("a zero-padded length still declares five bytes"),
    }
}

#[test]
fn parse_rejects_truncated_array() {
    assert!(parse_bytes(b"*2\r\n$1\r\na\r\n").is_err());
}

#[test]
fn serialize_simple_string() {
    let out = Helper::build_resp(&Reply::ReplyString(b"OK".to_vec()));
    assert_eq!(out, b"+OK\r\n".to_vec());
}

#[test]
fn serialize_bulk_string() {
    let out = Helper::build_resp(&Reply::ReplyBulkString(b"hello".to_vec()));
    assert_eq!(out, b"$5\r\nhello\r\n".to_vec());
}

#[test]
fn serialize_array() {
    let out = Helper::build_resp(&Reply::ReplyArray(vec![
        Reply::ReplyBulkString(b"GET".to_vec()),
        Reply::ReplyBulkString(b"foo".to_vec()),
    ]));
    assert_eq!(out, b"*2\r\n$3\r\nGET\r\n$3\r\nfoo\r\n".to_vec());
}

#[test]
fn serialize_empty_array() {
    let out = Helper::build_resp(&Reply::ReplyArray(vec![]));
    assert_eq!(out, b"*0\r\n".to_vec());
}

#[test]
fn round_trip_parse_of_serialized_reply() {
    let reply = Reply::ReplyArray(vec![
        Reply::ReplyString(b"PONG".to_vec()),
        Reply::ReplyBulkString(b"pay\nload".to_vec()),
        Reply::ReplyArray(vec![Reply::ReplyBulkString(b"".to_vec())]),
    ]);
    let bytes = Helper::build_resp(&reply);
    match parse_bytes(&bytes) {
        Ok(DS::RedArray(arr)) => {
            assert_eq!(arr.length, 3);
            match &arr.value[0] {
                DS::SimpleString(s) => assert_eq!(s, &b"PONG".to_vec()),
                _ => panic!("first element should be a simple string"),
            }
            match &arr.value[1] {
                DS::BulkString(s) => assert_eq!(s, &b"pay\nload".to_vec()),
                _ => panic!("second element should be a bulk string"),
            }
            match &arr.value[2] {
                DS::RedArray(inner) => {
                    assert_eq!(inner.length, 1);
                    match &inner.value[0] {
                        DS::BulkString(s) => assert_eq!(s, &b"".to_vec()),
                        _ => panic!("inner element should be a bulk string"),
                    }
                },
                _ => panic!("third element should be an array"),
            }
        },
        _ => panic!("serialized reply must parse back as an array"),
    }
}

#[test]
fn parser_cursor_advances_over_consecutive_values() {
    let mut parser = RESPParser::new();
    parser.register(&b"+one\r\n+two\r\n".to_vec());
    match parser.parse() {
        Ok(DS::SimpleString(s)) => assert_eq!(s, b"one".to_vec()),
        _ => panic!("expected the first simple string"),
    }
    match parser.parse() {
        Ok(DS::SimpleString(s)) => assert_eq!(s, b"two".to_vec()),
        _ => panic!("expected the second simple string"),
    }
    assert!(parser.parse().is_err());
}

#[test]
fn build_response_reserializes_a_parsed_value() {
    let interpreter = mini_redis::interpreter::RESPInterpreter::new();
    let ds = parse_bytes(b"*2\r\n$4\r\nECHO\r\n+hey\r\n").expect("well-formed frame");
    let out = interpreter.build_response(&ds);
    assert_eq!(out, b"*2\r\n$4\r\nECHO\r\n+hey\r\n".to_vec());
}

#[test]
fn get_value_and_get_type() {
    let bulk = DS::BulkString(b"abc".to_vec());
    assert_eq!(bulk.get_value(), b"abc".to_vec());
    assert_eq!(bulk.get_type(), "string");
    let simple = DS::SimpleString(b"xyz".to_vec());
    assert_eq!(simple.get_value(), b"xyz".to_vec());
    assert_eq!(simple.get_type(), "string");
    match parse_bytes(b"*0\r\n") {
        Ok(arr) => {
            assert_eq!(arr.get_value(), b"".to_vec());
            assert_eq!(arr.get_type(), "list");
        },
        _ => panic!("expected an empty array"),
    }
}
