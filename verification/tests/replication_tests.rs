use mini_redis::parser::DS;
use mini_redis::replication::{ClientConnectionState, ReplicationInterpreter};

fn feed(engine: &mut ReplicationInterpreter, reply: &[u8]) -> Option<Vec<u8>> {
    engine.register(DS::SimpleString(reply.to_vec()));
    engine.interpret()
}

#[test]
fn handshake_walks_all_four_states_in_order() {
    let port: u32 = 6380;
    let mut engine = ReplicationInterpreter::new(None, &port);
    assert_eq!(engine.state, ClientConnectionState::BeforePing);

    let out = feed(&mut engine, b"PONG").expect("PONG must be answered");
    assert_eq!(
        out,
        b"*3\r\n$8\r\nREPLCONF\r\n$14\r\nlistening-port\r\n$4\r\n6380\r\n".to_vec()
    );
    assert_eq!(engine.state, ClientConnectionState::PingSentSuccessfully);

    let out = feed(&mut engine, b"OK").expect("first OK must be answered");
    assert_eq!(out, b"*3\r\n$8\r\nREPLCONF\r\n$4\r\ncapa\r\n$6\r\npsync2\r\n".to_vec());
    assert_eq!(engine.state, ClientConnectionState::ReplConf1Sent);

    let out = feed(&mut engine, b"OK").expect("second OK must be answered");
    assert_eq!(out, b"*3\r\n$5\r\nPSYNC\r\n$1\r\n?\r\n$2\r\n-1\r\n".to_vec());
    assert_eq!(engine.state, ClientConnectionState::ReplConf2Sent);

    let out = feed(&mut engine, b"FULLRESYNC 8371b4fb1155b71f4a04d3e1bc3e18c4a990aeeb 0");
    assert!(out.is_none(), "the terminal reply yields no command");
    assert_eq!(engine.state, ClientConnectionState::ReplConf2Sent);
}

#[test]
fn unexpected_reply_is_error_and_state_unchanged() {
    let port: u32 = 6380;
    let mut engine = ReplicationInterpreter::new(None, &port);
    let out = feed(&mut engine, b"OK").expect("an unexpected reply is answered");
    assert_eq!(out, b"$22\r\n-ERROR Invalid Command\r\n".to_vec());
    assert_eq!(engine.state, ClientConnectionState::BeforePing);
}

#[test]
fn non_string_reply_is_error_and_state_unchanged() {
    let port: u32 = 6380;
    let mut engine = ReplicationInterpreter::new(None, &port);
    engine.register(DS::RedArray(mini_redis::parser::RedArray { length: 0, value: vec![] }));
    let out = engine.interpret().expect("a non-string reply is answered");
    assert_eq!(out, b"$22\r\n-ERROR Invalid Command\r\n".to_vec());
    assert_eq!(engine.state, ClientConnectionState::BeforePing);

    let mut fresh = ReplicationInterpreter::new(None, &port);
    let out = fresh.interpret().expect("no registered reply is an error too");
    assert_eq!(out, b"$22\r\n-ERROR Invalid Command\r\n".to_vec());
}

#[test]
fn replies_are_matched_case_insensitively() {
    let port: u32 = 1;
    let mut engine = ReplicationInterpreter::new(None, &port);
    let out = feed(&mut engine, b"pOnG").expect("case must not matter");
    assert_eq!(
        out,
        b"*3\r\n$8\r\nREPLCONF\r\n$14\r\nlistening-port\r\n$1\r\n1\r\n".to_vec()
    );
    assert_eq!(engine.state, ClientConnectionState::PingSentSuccessfully);
}

#[test]
fn pong_in_a_later_state_does_not_regress() {
    let port: u32 = 6380;
    let mut engine = ReplicationInterpreter::new(None, &port);
    feed(&mut engine, b"PONG");
    let out = feed(&mut engine, b"PONG").expect("a second PONG is unexpected");
    assert_eq!(out, b"$22\r\n-ERROR Invalid Command\r\n".to_vec());
    assert_eq!(engine.state, ClientConnectionState::PingSentSuccessfully);
}

#[test]
fn bulk_string_replies_drive_the_handshake_too() {
    let port: u32 = 6380;
    let mut engine = ReplicationInterpreter::new(None, &port);
    engine.register(DS::BulkString(b"PONG".to_vec()));
    let out = engine.interpret().expect("a bulk PONG is a string reply");
    assert_eq!(
        out,
        b"*3\r\n$8\r\nREPLCONF\r\n$14\r\nlistening-port\r\n$4\r\n6380\r\n".to_vec()
    );
    assert_eq!(engine.state, ClientConnectionState::PingSentSuccessfully);
}
