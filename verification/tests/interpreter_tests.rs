use mini_redis::interpreter::{InterpreterResponse, RESPInterpreter};
use mini_redis::options::{MasterServerOptions, ServerOptions, ServerRole, SlaveServerOptions};
use mini_redis::parser::RESPParser;
use mini_redis::store::DataStore;

fn master_options() -> ServerOptions {
    ServerOptions {
        rdb_file_name: None,
        rdb_dir_name: None,
        port: Some(6379),
        server_role: Some(ServerRole::Master(Some(MasterServerOptions {
            master_replid: b"8371b4fb1155b71f4a04d3e1bc3e18c4a990aeeb".to_vec(),
            master_repl_offset: 0,
        }))),
    }
}

fn slave_options() -> ServerOptions {
    ServerOptions {
        rdb_file_name: None,
        rdb_dir_name: None,
        port: Some(6380),
        server_role: Some(ServerRole::Slave(SlaveServerOptions {
            master_host: b"localhost".to_vec(),
            master_port: 6379,
        })),
    }
}

fn run(
    request: &[u8],
    store: &mut DataStore,
    opts: &mut ServerOptions,
    now_ms: u64,
) -> Vec<InterpreterResponse> {
    let mut parser = RESPParser::new();
    parser.register(&request.to_vec());
    let ds = parser.parse().expect("test request must parse");
    RESPInterpreter::new().interpret(ds, store, opts, now_ms)
}

fn single_text(responses: Vec<InterpreterResponse>) -> Vec<u8> {
    assert_eq!(responses.len(), 1, "expected exactly one reply");
    match responses.into_iter().next().unwrap() {
        InterpreterResponse::Text(v) => v,
        InterpreterResponse::Bytes(_) => panic!("expected a text reply"),
    }
}

#[test]
fn ping_replies_pong() {
    let mut store = DataStore::new();
    let mut opts = master_options();
    let out = run(b"*1\r\n$4\r\nPING\r\n", &mut store, &mut opts, 0);
    assert_eq!(single_text(out), b"+PONG\r\n".to_vec());
}

#[test]
fn set_then_get_round_trip() {
    let mut store = DataStore::new();
    let mut opts = master_options();
    let out = run(
        b"*3\r\n$3\r\nSET\r\n$3\r\nfoo\r\n$3\r\nbar\r\n",
        &mut store,
        &mut opts,
        0,
    );
    assert_eq!(single_text(out), b"+OK\r\n".to_vec());
    let out = run(b"*2\r\n$3\r\nGET\r\n$3\r\nfoo\r\n", &mut store, &mut opts, 0);
    assert_eq!(single_text(out), b"$3\r\nbar\r\n".to_vec());
}

#[test]
fn get_missing_key_is_nil_bulk() {
    let mut store = DataStore::new();
    let mut opts = master_options();
    let out = run(b"*2\r\n$3\r\nGET\r\n$3\r\nfoo\r\n", &mut store, &mut opts, 0);
    assert_eq!(single_text(out), b"$-1\r\n".to_vec());
}

#[test]
fn set_with_px_expires_and_leaves_keys_empty() {
    let mut store = DataStore::new();
    let mut opts = master_options();
    let out = run(
        b"*5\r\n$3\r\nSET\r\n$3\r\nfoo\r\n$3\r\nbar\r\n$2\r\nPX\r\n$1\r\n1\r\n",
        &mut store,
        &mut opts,
        1000,
    );
    assert_eq!(single_text(out), b"+OK\r\n".to_vec());
    // before the expiry has passed the value is visible
    let out = run(b"*2\r\n$3\r\nGET\r\n$3\r\nfoo\r\n", &mut store, &mut opts, 1001);
    assert_eq!(single_text(out), b"$3\r\nbar\r\n".to_vec());
    // more than one millisecond later it is gone
    let out = run(b"*2\r\n$3\r\nGET\r\n$3\r\nfoo\r\n", &mut store, &mut opts, 1002);
    assert_eq!(single_text(out), b"$-1\r\n".to_vec());
    // and the lazy eviction removed it, so KEYS no longer lists it
    let out = run(b"*2\r\n$4\r\nKEYS\r\n$1\r\n*\r\n", &mut store, &mut opts, 1002);
    assert_eq!(single_text(out), b"*0\r\n".to_vec());
}

#[test]
fn config_set_then_get_dir() {
    let mut store = DataStore::new();
    let mut opts = master_options();
    let out = run(
        b"*4\r\n$6\r\nCONFIG\r\n$3\r\nSET\r\n$3\r\ndir\r\n$4\r\n/tmp\r\n",
        &mut store,
        &mut opts,
        0,
    );
    assert_eq!(single_text(out), b"+OK\r\n".to_vec());
    let out = run(
        b"*3\r\n$6\r\nCONFIG\r\n$3\r\nGET\r\n$3\r\ndir\r\n",
        &mut store,
        &mut opts,
        0,
    );
    assert_eq!(single_text(out), b"*2\r\n$3\r\ndir\r\n$4\r\n/tmp\r\n".to_vec());
}

#[test]
fn config_set_then_get_dbfilename() {
    let mut store = DataStore::new();
    let mut opts = master_options();
    let out = run(
        b"*4\r\n$6\r\nCONFIG\r\n$3\r\nSET\r\n$10\r\ndbfilename\r\n$8\r\ndump.rdb\r\n",
        &mut store,
        &mut opts,
        0,
    );
    assert_eq!(single_text(out), b"+OK\r\n".to_vec());
    let out = run(
        b"*3\r\n$6\r\nCONFIG\r\n$3\r\nGET\r\n$10\r\ndbfilename\r\n",
        &mut store,
        &mut opts,
        0,
    );
    assert_eq!(
        single_text(out),
        b"*2\r\n$10\r\ndbfilename\r\n$8\r\ndump.rdb\r\n".to_vec()
    );
}

#[test]
fn config_get_unknown_key_is_empty_reply() {
    let mut store = DataStore::new();
    let mut opts = master_options();
    let out = run(
        b"*3\r\n$6\r\nCONFIG\r\n$3\r\nGET\r\n$5\r\nnosuq\r\n",
        &mut store,
        &mut opts,
        0,
    );
    assert_eq!(single_text(out), b"".to_vec());
}

#[test]
fn config_set_unknown_key_is_error() {
    let mut store = DataStore::new();
    let mut opts = master_options();
    let out = run(
        b"*4\r\n$6\r\nCONFIG\r\n$3\r\nSET\r\n$4\r\nport\r\n$4\r\n1234\r\n",
        &mut store,
        &mut opts,
        0,
    );
    assert_eq!(
        single_text(out),
        b"-ERROR trying to set invalid config option\r\n".to_vec()
    );
}

#[test]
fn config_without_action_is_error() {
    let mut store = DataStore::new();
    let mut opts = master_options();
    let out = run(b"*1\r\n$6\r\nCONFIG\r\n", &mut store, &mut opts, 0);
    assert_eq!(single_text(out), b"-ERROR config action invalid".to_vec());
}

#[test]
fn echo_replies_with_a_simple_string() {
    let mut store = DataStore::new();
    let mut opts = master_options();
    let out = run(b"*2\r\n$4\r\nECHO\r\n$3\r\nhey\r\n", &mut store, &mut opts, 0);
    assert_eq!(single_text(out), b"+hey\r\n".to_vec());
}

#[test]
fn echo_without_argument_is_error() {
    let mut store = DataStore::new();
    let mut opts = master_options();
    let out = run(b"*1\r\n$4\r\nECHO\r\n", &mut store, &mut opts, 0);
    assert_eq!(single_text(out), b"-ERROR Expected an argument\r\n".to_vec());
}

#[test]
fn set_without_value_is_error_not_abort() {
    let mut store = DataStore::new();
    let mut opts = master_options();
    let out = run(b"*2\r\n$3\r\nSET\r\n$3\r\nfoo\r\n", &mut store, &mut opts, 0);
    assert_eq!(
        single_text(out),
        b"-ERROR Expected a key and a value\r\n".to_vec()
    );
    assert!(store.memory.is_empty());
}

#[test]
fn set_with_invalid_px_value_is_error() {
    let mut store = DataStore::new();
    let mut opts = master_options();
    let out = run(
        b"*5\r\n$3\r\nSET\r\n$1\r\nk\r\n$1\r\nv\r\n$2\r\nPX\r\n$3\r\nabc\r\n",
        &mut store,
        &mut opts,
        0,
    );
    assert_eq!(single_text(out), b"-ERROR Invalid value for px\r\n".to_vec());
    assert!(store.memory.is_empty());
}

#[test]
fn set_with_px_and_no_value_is_error() {
    let mut store = DataStore::new();
    let mut opts = master_options();
    let out = run(
        b"*4\r\n$3\r\nSET\r\n$1\r\nk\r\n$1\r\nv\r\n$2\r\nPX\r\n",
        &mut store,
        &mut opts,
        0,
    );
    assert_eq!(single_text(out), b"-ERROR Expected a value for px\r\n".to_vec());
}

#[test]
fn set_ignores_unknown_modifiers() {
    let mut store = DataStore::new();
    let mut opts = master_options();
    let out = run(
        b"*4\r\n$3\r\nSET\r\n$1\r\nk\r\n$1\r\nv\r\n$2\r\nEX\r\n",
        &mut store,
        &mut opts,
        0,
    );
    assert_eq!(single_text(out), b"+OK\r\n".to_vec());
    let out = run(b"*2\r\n$3\r\nGET\r\n$1\r\nk\r\n", &mut store, &mut opts, 0);
    assert_eq!(single_text(out), b"$1\r\nv\r\n".to_vec());
}

#[test]
fn keys_lists_all_live_keys_as_bulk_strings() {
    let mut store = DataStore::new();
    let mut opts = master_options();
    run(b"*3\r\n$3\r\nSET\r\n$3\r\nfoo\r\n$3\r\nbar\r\n", &mut store, &mut opts, 0);
    run(b"*3\r\n$3\r\nSET\r\n$3\r\nbaz\r\n$3\r\nqux\r\n", &mut store, &mut opts, 0);
    let out = run(b"*2\r\n$4\r\nKEYS\r\n$1\r\n*\r\n", &mut store, &mut opts, 0);
    assert_eq!(
        single_text(out),
        b"*2\r\n$3\r\nfoo\r\n$3\r\nbaz\r\n".to_vec()
    );
}

#[test]
fn info_reports_master_role_with_replication_details() {
    let mut store = DataStore::new();
    let mut opts = master_options();
    let out = run(b"*2\r\n$4\r\nINFO\r\n$11\r\nreplication\r\n", &mut store, &mut opts, 0);
    let expected = b"$89\r\nrole:master\r\nmaster_replid:8371b4fb1155b71f4a04d3e1bc3e18c4a990aeeb\r\nmaster_repl_offset:0\r\n".to_vec();
    assert_eq!(single_text(out), expected);
}

#[test]
fn info_reports_slave_role() {
    let mut store = DataStore::new();
    let mut opts = slave_options();
    let out = run(b"*2\r\n$4\r\nINFO\r\n$11\r\nreplication\r\n", &mut store, &mut opts, 0);
    assert_eq!(single_text(out), b"$10\r\nrole:slave\r\n".to_vec());
}

#[test]
fn info_without_argument_is_error() {
    let mut store = DataStore::new();
    let mut opts = master_options();
    let out = run(b"*1\r\n$4\r\nINFO\r\n", &mut store, &mut opts, 0);
    assert_eq!(
        single_text(out),
        b"+-invalid argument for `info` command\r\n".to_vec()
    );
}

#[test]
fn unknown_command_degrades_to_ok() {
    let mut store = DataStore::new();
    let mut opts = master_options();
    let out = run(b"*1\r\n$8\r\nFLUSHALL\r\n", &mut store, &mut opts, 0);
    assert_eq!(single_text(out), b"+OK\r\n".to_vec());
}

#[test]
fn non_array_request_is_interpreter_error() {
    let mut store = DataStore::new();
    let mut opts = master_options();
    let out = run(b"+PING\r\n", &mut store, &mut opts, 0);
    assert_eq!(
        single_text(out),
        b"- Error while interpreting the message".to_vec()
    );
}

#[test]
fn psync_on_master_sends_fullresync_and_snapshot() {
    let mut store = DataStore::new();
    let mut opts = master_options();
    let out = run(b"*3\r\n$5\r\nPSYNC\r\n$1\r\n?\r\n$2\r\n-1\r\n", &mut store, &mut opts, 0);
    assert_eq!(out.len(), 2);
    let expected_rdb = base64::Engine::decode(
        &base64::prelude::BASE64_STANDARD,
        "UkVESVMwMDEx+glyZWRpcy12ZXIFNy4yLjD6CnJlZGlzLWJpdHPAQPoFY3RpbWXCbQi8ZfoIdXNlZC1tZW3CsMQQAPoIYW9mLWJhc2XAAP/wbjv+wP9aog==",
    )
    .expect("the embedded snapshot is valid base64");
    let mut it = out.into_iter();
    match it.next().unwrap() {
        InterpreterResponse::Text(v) => {
            let expected =
                b"$53\r\nFULLRESYNC 8371b4fb1155b71f4a04d3e1bc3e18c4a990aeeb 0\r\n".to_vec();
            assert_eq!(v, expected);
        },
        _ => panic!("first reply must be the FULLRESYNC line"),
    }
    match it.next().unwrap() {
        InterpreterResponse::Bytes(v) => {
            let mut expected = format!("${}\r\n", expected_rdb.len()).into_bytes();
            expected.extend_from_slice(&expected_rdb);
            assert_eq!(v, expected);
        },
        _ => panic!("second reply must be the raw snapshot payload"),
    }
}

#[test]
fn psync_on_slave_is_error() {
    let mut store = DataStore::new();
    let mut opts = slave_options();
    let out = run(b"*3\r\n$5\r\nPSYNC\r\n$1\r\n?\r\n$2\r\n-1\r\n", &mut store, &mut opts, 0);
    let expected = b"$41\r\n-Error can only ask for psync from master\r\n".to_vec();
    assert_eq!(single_text(out), expected);
}

#[test]
fn command_matching_is_case_insensitive() {
    let mut store = DataStore::new();
    let mut opts = master_options();
    let out = run(b"*1\r\n$4\r\npInG\r\n", &mut store, &mut opts, 0);
    assert_eq!(single_text(out), b"+PONG\r\n".to_vec());
}

#[test]
fn set_non_string_key_is_error() {
    let mut store = DataStore::new();
    let mut opts = master_options();
    let out = run(
        b"*3\r\n$3\r\nSET\r\n*0\r\n$3\r\nbar\r\n",
        &mut store,
        &mut opts,
        0,
    );
    assert_eq!(
        single_text(out),
        b"-ERROR Expected the key to be a string".to_vec()
    );
}

#[test]
fn get_without_key_is_error() {
    let mut store = DataStore::new();
    let mut opts = master_options();
    let out = run(b"*1\r\n$3\r\nGET\r\n", &mut store, &mut opts, 0);
    assert_eq!(single_text(out), b"-ERROR Expected a key\r\n".to_vec());
}

#[test]
fn set_non_string_value_is_error() {
    let mut store = DataStore::new();
    let mut opts = master_options();
    let out = run(b"*3\r\n$3\r\nSET\r\n$1\r\nk\r\n*0\r\n", &mut store, &mut opts, 0);
    assert_eq!(
        single_text(out),
        b"-ERROR Expected the value to be a string".to_vec()
    );
}

#[test]
fn set_px_too_far_in_the_future_is_error() {
    let mut store = DataStore::new();
    let mut opts = master_options();
    let out = run(
        b"*5\r\n$3\r\nSET\r\n$1\r\nk\r\n$1\r\nv\r\n$2\r\nPX\r\n$2\r\n10\r\n",
        &mut store,
        &mut opts,
        u64::MAX - 5,
    );
    assert_eq!(single_text(out), b"-ERROR Expiry out of range\r\n".to_vec());
    assert!(store.memory.is_empty());
}

#[test]
fn config_set_without_key_or_value_is_error() {
    let mut store = DataStore::new();
    let mut opts = master_options();
    let out = run(b"*2\r\n$6\r\nCONFIG\r\n$3\r\nSET\r\n", &mut store, &mut opts, 0);
    assert_eq!(single_text(out), b"-ERROR no config key sent\r\n".to_vec());
    let out = run(
        b"*3\r\n$6\r\nCONFIG\r\n$3\r\nSET\r\n$3\r\ndir\r\n",
        &mut store,
        &mut opts,
        0,
    );
    assert_eq!(single_text(out), b"-ERROR no config value sent\r\n".to_vec());
}

#[test]
fn config_get_unconfigured_dir_is_error() {
    let mut store = DataStore::new();
    let mut opts = master_options();
    let out = run(
        b"*3\r\n$6\r\nCONFIG\r\n$3\r\nGET\r\n$3\r\ndir\r\n",
        &mut store,
        &mut opts,
        0,
    );
    assert_eq!(single_text(out), b"-ERROR no directory configured\r\n".to_vec());
}

#[test]
fn stored_values_survive_many_commands() {
    let mut store = DataStore::new();
    let mut opts = master_options();
    for i in 0..20u32 {
        let key = format!("key{}", i);
        let value = format!("value{}", i);
        let request = format!(
            "*3\r\n$3\r\nSET\r\n${}\r\n{}\r\n${}\r\n{}\r\n",
            key.len(),
            key,
            value.len(),
            value
        );
        let out = run(request.as_bytes(), &mut store, &mut opts, 7);
        assert_eq!(single_text(out), b"+OK\r\n".to_vec());
    }
    for i in 0..20u32 {
        let key = format!("key{}", i);
        let request = format!("*2\r\n$3\r\nGET\r\n${}\r\n{}\r\n", key.len(), key);
        let out = run(request.as_bytes(), &mut store, &mut opts, 8);
        let value = format!("value{}", i);
        let expected = format!("${}\r\n{}\r\n", value.len(), value).into_bytes();
        assert_eq!(single_text(out), expected);
    }
}
