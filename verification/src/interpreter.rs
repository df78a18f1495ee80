//! The command interpreter. Each `interpret` call is a pure state
//! transition: given a parsed request, the store, the configuration and
//! the current time, it mutates store and configuration and returns the
//! serialized replies. `interpret_spec` states the whole transition;
//! the executable code is proved to realize it.

use vstd::prelude::*;
use crate::bytes_util::{
    ascii_of, bytes_eq, copy_range, dec_digits, lower_bytes, push_all, push_decimal, str_bytes,
    to_lower,
};
use crate::helpers::{
    Helper, Reply, lemma_reply_models2, lemma_reply_models_len, reply_model, reply_models,
};
use crate::options::{OptionsModel, RoleModel, ServerOptions, ServerRole};
use crate::parser::{DS, ds_model, ds_models, lemma_ds_models_index, lemma_ds_models_len};
use crate::store::{DataItem, DataStore, ItemModel, get_result, get_state, mem_keys, mem_set};
use crate::wire::{DsModel, dec_value, is_digit, wire_of, CR, DOLLAR, LF};

verus! {

/// One unit of output for the connection: ordinary reply text, or a raw
/// byte payload (the snapshot transfer) that carries no trailing CRLF.
pub enum InterpreterResponse {
    Text(Vec<u8>),
    Bytes(Vec<u8>),
}

/// The model of one output unit.
pub enum OutModel {
    Text(Seq<u8>),
    Raw(Seq<u8>),
}

pub open spec fn resp_model(r: InterpreterResponse) -> OutModel {
    match r {
        InterpreterResponse::Text(v) => OutModel::Text(v@),
        InterpreterResponse::Bytes(v) => OutModel::Raw(v@),
    }
}

pub open spec fn resp_models(v: Seq<InterpreterResponse>) -> Seq<OutModel> {
    v.map_values(|r: InterpreterResponse| resp_model(r))
}

/// What one `interpret` call does: the store and configuration it leaves
/// behind, and the outputs it hands back.
pub struct Effect {
    pub mem: Seq<(Seq<u8>, ItemModel)>,
    pub opts: OptionsModel,
    pub outs: Seq<OutModel>,
}

/// Splits a request into its lowercased command name and its arguments:
/// the request must be an array whose first element is a bulk string.
pub open spec fn command_of(req: DsModel) -> Option<(Seq<u8>, Seq<DsModel>)> {
    match req {
        DsModel::Arr(es) => if es.len() == 0 {
            None
        } else {
            match es[0] {
                DsModel::Bulk(name) => Some((lower_bytes(name), es.drop_first())),
                _ => None,
            }
        },
        _ => None,
    }
}

/// What `get_value` reads out of a parsed value.
pub open spec fn value_of(m: DsModel) -> Seq<u8> {
    match m {
        DsModel::Simple(s) => s,
        DsModel::Bulk(s) => s,
        DsModel::Arr(_) => Seq::empty(),
    }
}

/// Keys as bulk strings, for the `KEYS` reply.
pub open spec fn bulks_of(keys: Seq<Seq<u8>>) -> Seq<DsModel> {
    keys.map_values(|k: Seq<u8>| DsModel::Bulk(k))
}

/// How `PX` milliseconds are read: a non-empty all-digit string whose
/// value fits an unsigned 64-bit number.
pub open spec fn parse_millis(s: Seq<u8>) -> Option<u64> {
    if s.len() == 0 || !(forall|i: int| 0 <= i < s.len() ==> is_digit(s[i])) {
        None
    } else if dec_value(s) > u64::MAX {
        None
    } else {
        Some(dec_value(s) as u64)
    }
}

/// Walks the modifiers after `SET key value`, carrying the expiry chosen
/// so far: `PX <millis>` sets it to now + millis, any other bulk-string
/// modifier is ignored, a non-string modifier is an error.
pub open spec fn scan_set_opts(
    args: Seq<DsModel>,
    i: int,
    now: u64,
    acc: Option<u64>,
) -> Result<Option<u64>, Seq<u8>>
    decreases args.len() - i,
{
    if i < 0 || i >= args.len() {
        Ok(acc)
    } else {
        match args[i] {
            DsModel::Bulk(o) => if lower_bytes(o) == ascii_of("px"@) {
                if i + 1 >= args.len() {
                    Err(msg_px_missing())
                } else {
                    match args[i + 1] {
                        DsModel::Bulk(d) => match parse_millis(d) {
                            None => Err(msg_px_invalid()),
                            Some(ms) => if now + ms > u64::MAX {
                                Err(msg_px_overflow())
                            } else {
                                scan_set_opts(args, i + 2, now, Some((now + ms) as u64))
                            },
                        },
                        _ => scan_set_opts(args, i + 2, now, acc),
                    }
                }
            } else {
                scan_set_opts(args, i + 1, now, acc)
            },
            _ => Err(msg_bad_arg_type()),
        }
    }
}

pub open spec fn msg_interp_err() -> Seq<u8> {
    ascii_of("- Error while interpreting the message"@)
}

pub open spec fn msg_echo_no_arg() -> Seq<u8> {
    ascii_of("-ERROR Expected an argument\r\n"@)
}

pub open spec fn msg_set_args() -> Seq<u8> {
    ascii_of("-ERROR Expected a key and a value\r\n"@)
}

pub open spec fn msg_key_not_string() -> Seq<u8> {
    ascii_of("-ERROR Expected the key to be a string"@)
}

pub open spec fn msg_value_not_string() -> Seq<u8> {
    ascii_of("-ERROR Expected the value to be a string"@)
}

pub open spec fn msg_bad_arg_type() -> Seq<u8> {
    ascii_of("-ERROR Invalid argument type"@)
}

pub open spec fn msg_px_missing() -> Seq<u8> {
    ascii_of("-ERROR Expected a value for px\r\n"@)
}

pub open spec fn msg_px_invalid() -> Seq<u8> {
    ascii_of("-ERROR Invalid value for px\r\n"@)
}

pub open spec fn msg_px_overflow() -> Seq<u8> {
    ascii_of("-ERROR Expiry out of range\r\n"@)
}

pub open spec fn msg_get_no_key() -> Seq<u8> {
    ascii_of("-ERROR Expected a key\r\n"@)
}

pub open spec fn msg_ok() -> Seq<u8> {
    ascii_of("+OK\r\n"@)
}

pub open spec fn msg_pong() -> Seq<u8> {
    ascii_of("+PONG\r\n"@)
}

pub open spec fn msg_nil_bulk() -> Seq<u8> {
    ascii_of("$-1\r\n"@)
}

pub open spec fn msg_config_invalid() -> Seq<u8> {
    ascii_of("-ERROR config action invalid"@)
}

pub open spec fn msg_no_config_key() -> Seq<u8> {
    ascii_of("-ERROR no config key sent\r\n"@)
}

pub open spec fn msg_no_config_value() -> Seq<u8> {
    ascii_of("-ERROR no config value sent\r\n"@)
}

pub open spec fn msg_bad_config_set() -> Seq<u8> {
    ascii_of("-ERROR trying to set invalid config option\r\n"@)
}

pub open spec fn msg_dir_unset() -> Seq<u8> {
    ascii_of("-ERROR no directory configured\r\n"@)
}

pub open spec fn msg_file_unset() -> Seq<u8> {
    ascii_of("-ERROR no db file name configured\r\n"@)
}

pub open spec fn msg_info_invalid() -> Seq<u8> {
    wire_of(DsModel::Simple(ascii_of("-invalid argument for `info` command"@)))
}

pub open spec fn msg_psync_not_master() -> Seq<u8> {
    wire_of(DsModel::Bulk(ascii_of("-Error can only ask for psync from master"@)))
}

pub open spec fn msg_rdb_decode_failed() -> Seq<u8> {
    ascii_of("-ERROR Can not decode the empty snapshot\r\n"@)
}

/// `ECHO` answers the argument's bytes as a simple string.
pub open spec fn echo_outs(args: Seq<DsModel>) -> Seq<OutModel> {
    if args.len() == 0 {
        seq![OutModel::Text(msg_echo_no_arg())]
    } else {
        seq![OutModel::Text(wire_of(DsModel::Simple(value_of(args[0]))))]
    }
}

pub open spec fn set_step(
    args: Seq<DsModel>,
    mem: Seq<(Seq<u8>, ItemModel)>,
    now: u64,
) -> (Seq<(Seq<u8>, ItemModel)>, Seq<OutModel>) {
    if args.len() < 2 {
        (mem, seq![OutModel::Text(msg_set_args())])
    } else {
        match args[0] {
            DsModel::Bulk(key) => match args[1] {
                DsModel::Bulk(value) => match scan_set_opts(args, 2, now, None) {
                    Err(m) => (mem, seq![OutModel::Text(m)]),
                    Ok(expiry) => (
                        mem_set(mem, key, ItemModel { data: value, expiry }),
                        seq![OutModel::Text(msg_ok())],
                    ),
                },
                _ => (mem, seq![OutModel::Text(msg_value_not_string())]),
            },
            _ => (mem, seq![OutModel::Text(msg_key_not_string())]),
        }
    }
}

pub open spec fn get_step(
    args: Seq<DsModel>,
    mem: Seq<(Seq<u8>, ItemModel)>,
    now: u64,
) -> (Seq<(Seq<u8>, ItemModel)>, Seq<OutModel>) {
    if args.len() == 0 {
        (mem, seq![OutModel::Text(msg_get_no_key())])
    } else {
        match args[0] {
            DsModel::Bulk(key) => (
                get_state(mem, key, now),
                match get_result(mem, key, now) {
                    Some(item) => seq![OutModel::Text(wire_of(DsModel::Bulk(item.data)))],
                    None => seq![OutModel::Text(msg_nil_bulk())],
                },
            ),
            _ => (mem, seq![OutModel::Text(msg_key_not_string())]),
        }
    }
}

pub open spec fn config_get_reply(name: Seq<u8>, value: Seq<u8>) -> Seq<u8> {
    wire_of(DsModel::Arr(seq![DsModel::Bulk(name), DsModel::Bulk(value)]))
}

pub open spec fn config_step(args: Seq<DsModel>, opts: OptionsModel) -> (
    OptionsModel,
    Seq<OutModel>,
) {
    if args.len() == 0 {
        (opts, seq![OutModel::Text(msg_config_invalid())])
    } else {
        match args[0] {
            DsModel::Bulk(ab) => {
                let action = lower_bytes(ab);
                if action == ascii_of("get"@) {
                    if args.len() < 2 {
                        (opts, seq![OutModel::Text(Seq::empty())])
                    } else {
                        let key = value_of(args[1]);
                        if key == ascii_of("dir"@) {
                            match opts.dir {
                                Some(d) => (
                                    opts,
                                    seq![
                                        OutModel::Text(config_get_reply(ascii_of("dir"@), d)),
                                    ],
                                ),
                                None => (opts, seq![OutModel::Text(msg_dir_unset())]),
                            }
                        } else if key == ascii_of("dbfilename"@) {
                            match opts.file {
                                Some(f) => (
                                    opts,
                                    seq![
                                        OutModel::Text(
                                            config_get_reply(ascii_of("dbfilename"@), f),
                                        ),
                                    ],
                                ),
                                None => (opts, seq![OutModel::Text(msg_file_unset())]),
                            }
                        } else {
                            (opts, seq![OutModel::Text(Seq::empty())])
                        }
                    }
                } else if action == ascii_of("set"@) {
                    if args.len() < 2 {
                        (opts, seq![OutModel::Text(msg_no_config_key())])
                    } else {
                        let key = value_of(args[1]);
                        if key == ascii_of("dir"@) {
                            if args.len() < 3 {
                                (opts, seq![OutModel::Text(msg_no_config_value())])
                            } else {
                                (
                                    OptionsModel {
                                        file: opts.file,
                                        dir: Some(value_of(args[2])),
                                        port: opts.port,
                                        role: opts.role,
                                    },
                                    seq![OutModel::Text(msg_ok())],
                                )
                            }
                        } else if key == ascii_of("dbfilename"@) {
                            if args.len() < 3 {
                                (opts, seq![OutModel::Text(msg_no_config_value())])
                            } else {
                                (
                                    OptionsModel {
                                        file: Some(value_of(args[2])),
                                        dir: opts.dir,
                                        port: opts.port,
                                        role: opts.role,
                                    },
                                    seq![OutModel::Text(msg_ok())],
                                )
                            }
                        } else {
                            (opts, seq![OutModel::Text(msg_bad_config_set())])
                        }
                    }
                } else {
                    (opts, seq![OutModel::Text(msg_config_invalid())])
                }
            },
            _ => (opts, seq![OutModel::Text(msg_config_invalid())]),
        }
    }
}

pub open spec fn keys_outs(mem: Seq<(Seq<u8>, ItemModel)>) -> Seq<OutModel> {
    seq![OutModel::Text(wire_of(DsModel::Arr(bulks_of(mem_keys(mem)))))]
}

pub open spec fn master_info_line(replid: Seq<u8>, offset: u32) -> Seq<u8> {
    ascii_of("role:master\r\nmaster_replid:"@) + replid + ascii_of("\r\nmaster_repl_offset:"@)
        + dec_digits(offset as nat)
}

pub open spec fn info_outs(args: Seq<DsModel>, opts: OptionsModel) -> Seq<OutModel> {
    if args.len() >= 1 && args[0] is Bulk {
        match opts.role {
            RoleModel::SlaveOf { host, port } => seq![
                OutModel::Text(wire_of(DsModel::Bulk(ascii_of("role:slave"@)))),
            ],
            RoleModel::MasterWith { replid, offset } => seq![
                OutModel::Text(wire_of(DsModel::Bulk(master_info_line(replid, offset)))),
            ],
            _ => seq![OutModel::Text(wire_of(DsModel::Bulk(ascii_of("role:master"@))))],
        }
    } else {
        seq![OutModel::Text(msg_info_invalid())]
    }
}

/// The base64 text of the empty snapshot a master sends on `PSYNC`.
pub open spec fn empty_rdb_b64() -> Seq<u8> {
    ascii_of(
        "UkVESVMwMDEx+glyZWRpcy12ZXIFNy4yLjD6CnJlZGlzLWJpdHPAQPoFY3RpbWXCbQi8ZfoIdXNlZC1tZW3CsMQQAPoIYW9mLWJhc2XAAP/wbjv+wP9aog=="@,
    )
}

pub open spec fn fullresync_line(replid: Seq<u8>, offset: u32) -> Seq<u8> {
    ascii_of("FULLRESYNC "@) + replid + ascii_of(" "@) + dec_digits(offset as nat)
}

/// The snapshot payload as framed on the wire: a bulk-string header and
/// the raw bytes, with no trailing CRLF.
pub open spec fn rdb_frame(payload: Seq<u8>) -> Seq<u8> {
    seq![DOLLAR] + dec_digits(payload.len()) + seq![CR, LF] + payload
}

/// The master owes the `FULLRESYNC` line and the framed empty snapshot.
/// Whether the fixed base64 text decodes is the outside crate's own fact
/// (`base64_ok`); nothing verified may assume it holds, so the failure
/// reply stands in the other branch.
pub open spec fn psync_outs(opts: OptionsModel) -> Seq<OutModel> {
    match opts.role {
        RoleModel::MasterWith { replid, offset } => if base64_ok(empty_rdb_b64()) {
            seq![
                OutModel::Text(wire_of(DsModel::Bulk(fullresync_line(replid, offset)))),
                OutModel::Raw(rdb_frame(base64_decoded(empty_rdb_b64()))),
            ]
        } else {
            seq![OutModel::Text(msg_rdb_decode_failed())]
        },
        _ => seq![OutModel::Text(msg_psync_not_master())],
    }
}

/// The whole transition of one `interpret` call.
pub open spec fn interpret_spec(
    req: DsModel,
    mem: Seq<(Seq<u8>, ItemModel)>,
    opts: OptionsModel,
    now: u64,
) -> Effect {
    match command_of(req) {
        None => Effect { mem, opts, outs: seq![OutModel::Text(msg_interp_err())] },
        Some((cmd, args)) => if cmd == ascii_of("echo"@) {
            Effect { mem, opts, outs: echo_outs(args) }
        } else if cmd == ascii_of("set"@) {
            let (mem2, outs) = set_step(args, mem, now);
            Effect { mem: mem2, opts, outs }
        } else if cmd == ascii_of("get"@) {
            let (mem2, outs) = get_step(args, mem, now);
            Effect { mem: mem2, opts, outs }
        } else if cmd == ascii_of("config"@) {
            let (opts2, outs) = config_step(args, opts);
            Effect { mem, opts: opts2, outs }
        } else if cmd == ascii_of("keys"@) {
            Effect { mem, opts, outs: keys_outs(mem) }
        } else if cmd == ascii_of("info"@) {
            Effect { mem, opts, outs: info_outs(args, opts) }
        } else if cmd == ascii_of("psync"@) {
            Effect { mem, opts, outs: psync_outs(opts) }
        } else if cmd == ascii_of("ping"@) {
            Effect { mem, opts, outs: seq![OutModel::Text(msg_pong())] }
        } else {
            Effect { mem, opts, outs: seq![OutModel::Text(msg_ok())] }
        },
    }
}

/// What base64 decoding returns on the given input; the result depends on
/// the input bytes alone.
pub uninterp spec fn base64_decoded(s: Seq<u8>) -> Seq<u8>;

/// Whether base64 decoding accepts the given input; like the decoded
/// bytes, this depends on the input bytes alone.
pub uninterp spec fn base64_ok(s: Seq<u8>) -> bool;

/// Relies on base64's `Engine::decode` with the standard engine: whether
/// the input is accepted, and the decoded bytes when it is, are functions
/// of the input alone; `Some` exactly when the crate accepts the input as
/// valid base64.
#[verifier::external_body]
fn base64_decode(input: &Vec<u8>) -> (r: Option<Vec<u8>>)
    ensures
        r is Some <==> base64_ok(input@),
        r matches Some(v) ==> v@ == base64_decoded(input@),
{
    match base64::Engine::decode(&base64::prelude::BASE64_STANDARD, input.as_slice()) {
        Ok(v) => Some(v),
        Err(_) => None,
    }
}

/// Reads a millisecond count, exactly as `parse_millis` says.
fn millis_of(v: &Vec<u8>) -> (r: Option<u64>)
    ensures
        r == parse_millis(v@),
{
    if v.len() == 0 {
        return None;
    }
    let mut n: u64 = 0;
    let mut i: usize = 0;
    while i < v.len()
        invariant
            i <= v@.len(),
            forall|j: int| 0 <= j < i ==> is_digit(v@[j]),
            n as nat == dec_value(v@.subrange(0, i as int)),
        decreases v@.len() - i,
    {
        let b = v[i];
        if !(0x30 <= b && b <= 0x39) {
            return None;
        }
        let d = (b - 0x30) as u64;
        proof {
            let post = v@.subrange(0, i as int + 1);
            assert(post.drop_last() =~= v@.subrange(0, i as int));
            assert(post.last() == v@[i as int]);
        }
        let m = match n.checked_mul(10) {
            Some(m) => m,
            None => {
                proof {
                    crate::wire::lemma_dec_value_monotone(v@, 0, i as int + 1, v@.len() as int);
                    assert(v@.subrange(0, v@.len() as int) =~= v@);
                }
                return None;
            },
        };
        let nn = match m.checked_add(d) {
            Some(x) => x,
            None => {
                proof {
                    crate::wire::lemma_dec_value_monotone(v@, 0, i as int + 1, v@.len() as int);
                    assert(v@.subrange(0, v@.len() as int) =~= v@);
                }
                return None;
            },
        };
        n = nn;
        i = i + 1;
    }
    proof {
        assert(v@.subrange(0, v@.len() as int) =~= v@);
    }
    Some(n)
}

/// One text output.
fn one_text(v: Vec<u8>) -> (r: Vec<InterpreterResponse>)
    ensures
        resp_models(r@) == seq![OutModel::Text(v@)],
{
    let ghost gv = v@;
    let mut r: Vec<InterpreterResponse> = Vec::new();
    r.push(InterpreterResponse::Text(v));
    proof {
        assert(resp_models(r@) =~= seq![OutModel::Text(gv)]);
    }
    r
}

/// One text output spelled by an ASCII literal.
fn text1(s: &str) -> (r: Vec<InterpreterResponse>)
    requires
        s.is_ascii(),
    ensures
        resp_models(r@) == seq![OutModel::Text(ascii_of(s@))],
{
    one_text(str_bytes(s))
}

/// The modifiers gathered while reading a `SET` command.
pub struct SetOptions {
    pub expiry: Option<u64>,
}

/// The command interpreter. It holds no state of its own: every call is
/// given the store, the configuration and the clock explicitly.
pub struct RESPInterpreter;

impl RESPInterpreter {
    pub fn new() -> (r: RESPInterpreter) {
        RESPInterpreter
    }

    /// Serializes a parsed value back to its wire form.
    pub fn build_response(&self, ds: &DS) -> (r: Vec<u8>)
        ensures
            r@ == wire_of(ds_model(*ds)),
        decreases *ds,
    {
        match ds {
            DS::SimpleString(s) => {
                let mut out: Vec<u8> = Vec::new();
                out.push(crate::wire::PLUS);
                push_all(&mut out, s);
                out.push(CR);
                out.push(LF);
                assert(out@ =~= wire_of(ds_model(*ds)));
                out
            },
            DS::BulkString(s) => {
                let mut out: Vec<u8> = Vec::new();
                out.push(DOLLAR);
                proof {
                    assert(s.len() == s@.len());
                }
                push_decimal(&mut out, s.len() as u64);
                out.push(CR);
                out.push(LF);
                push_all(&mut out, s);
                out.push(CR);
                out.push(LF);
                assert(out@ =~= wire_of(ds_model(*ds)));
                out
            },
            DS::RedArray(a) => {
                let mut out: Vec<u8> = Vec::new();
                out.push(crate::wire::STAR);
                proof {
                    assert(a.value.len() == a.value@.len());
                }
                push_decimal(&mut out, a.value.len() as u64);
                out.push(CR);
                out.push(LF);
                let ghost header = seq![crate::wire::STAR] + dec_digits(a.value@.len()) + seq![
                    CR,
                    LF,
                ];
                assert(out@ =~= header + crate::wire::wire_of_list(
                    ds_models(a.value@.subrange(0, 0)),
                )) by {
                    assert(ds_models(a.value@.subrange(0, 0)) =~= Seq::<DsModel>::empty());
                }
                let mut i: usize = 0;
                while i < a.value.len()
                    invariant
                        *ds == DS::RedArray(*a),
                        header == seq![crate::wire::STAR] + dec_digits(a.value@.len()) + seq![
                            CR,
                            LF,
                        ],
                        i <= a.value@.len(),
                        out@ == header + crate::wire::wire_of_list(
                            ds_models(a.value@.subrange(0, i as int)),
                        ),
                    decreases a.value@.len() - i,
                {
                    proof {
                        assert(decreases_to!(*ds => ds->RedArray_0));
                        assert(decreases_to!(*ds => a.value@[i as int]));
                    }
                    let piece = self.build_response(&a.value[i]);
                    push_all(&mut out, &piece);
                    proof {
                        let elem = a.value@[i as int];
                        let pre = a.value@.subrange(0, i as int);
                        let post = a.value@.subrange(0, i as int + 1);
                        assert(piece@ == wire_of(ds_model(elem)));
                        assert(post =~= pre.push(elem));
                        crate::parser::lemma_ds_models_push(pre, elem);
                        crate::wire::lemma_wire_of_list_push(ds_models(pre), ds_model(elem));
                        assert(ds_models(pre) + seq![ds_model(elem)] =~= ds_models(pre).push(
                            ds_model(elem),
                        ));
                        assert(crate::wire::wire_of_list(ds_models(post))
                            == crate::wire::wire_of_list(ds_models(pre)) + wire_of(
                            ds_model(elem),
                        ));
                        assert(out@ =~= header + crate::wire::wire_of_list(ds_models(post)));
                    }
                    i = i + 1;
                }
                proof {
                    assert(a.value@.subrange(0, a.value@.len() as int) =~= a.value@);
                    lemma_ds_models_len(a.value@);
                    assert(ds_model(*ds) == DsModel::Arr(ds_models(a.value@)));
                    assert(out@ =~= wire_of(ds_model(*ds)));
                }
                out
            },
        }
    }

    fn do_echo(&self, args: &Vec<DS>) -> (r: Vec<InterpreterResponse>)
        ensures
            resp_models(r@) == echo_outs(ds_models(args@)),
    {
        proof {
            lemma_ds_models_len(args@);
        }
        if args.len() == 0 {
            proof {
                reveal_strlit("-ERROR Expected an argument\r\n");
            }
            text1("-ERROR Expected an argument\r\n")
        } else {
            proof {
                lemma_ds_models_index(args@, 0);
            }
            one_text(Helper::build_resp(&Reply::ReplyString(args[0].get_value())))
        }
    }

    fn do_set(&self, args: &Vec<DS>, store: &mut DataStore, now: u64) -> (r: Vec<
        InterpreterResponse,
    >)
        requires
            old(store).wf(),
        ensures
            final(store).wf(),
            ({
                let (m2, outs) = set_step(ds_models(args@), old(store)@, now);
                final(store)@ == m2 && resp_models(r@) == outs
            }),
    {
        let ghost am = ds_models(args@);
        proof {
            lemma_ds_models_len(args@);
        }
        if args.len() < 2 {
            proof {
                reveal_strlit("-ERROR Expected a key and a value\r\n");
            }
            return text1("-ERROR Expected a key and a value\r\n");
        }
        proof {
            lemma_ds_models_index(args@, 0);
            lemma_ds_models_index(args@, 1);
        }
        let key = match &args[0] {
            DS::BulkString(b) => copy_range(b, 0, b.len()),
            _ => {
                proof {
                    reveal_strlit("-ERROR Expected the key to be a string");
                }
                return text1("-ERROR Expected the key to be a string");
            },
        };
        proof {
            assert(key@ =~= am[0]->Bulk_0);
        }
        let value = match &args[1] {
            DS::BulkString(b) => copy_range(b, 0, b.len()),
            _ => {
                proof {
                    reveal_strlit("-ERROR Expected the value to be a string");
                }
                return text1("-ERROR Expected the value to be a string");
            },
        };
        proof {
            assert(value@ =~= am[1]->Bulk_0);
        }
        proof {
            reveal_strlit("px");
        }
        let px = str_bytes("px");
        let mut set_options = SetOptions { expiry: None };
        let mut i: usize = 2;
        while i < args.len()
            invariant
                am == ds_models(args@),
                am.len() == args@.len(),
                2 <= am.len(),
                am[0] == DsModel::Bulk(key@),
                am[1] == DsModel::Bulk(value@),
                px@ == ascii_of("px"@),
                2 <= i,
                store.wf(),
                store@ == old(store)@,
                scan_set_opts(am, 2, now, None) == scan_set_opts(
                    am,
                    i as int,
                    now,
                    set_options.expiry,
                ),
            decreases args@.len() - i,
        {
            proof {
                lemma_ds_models_index(args@, i as int);
            }
            match &args[i] {
                DS::BulkString(o) => {
                    let ol = to_lower(o);
                    if bytes_eq(&ol, &px) {
                        if i + 1 >= args.len() {
                            proof {
                                reveal_strlit("-ERROR Expected a value for px\r\n");
                            }
                            return text1("-ERROR Expected a value for px\r\n");
                        }
                        proof {
                            lemma_ds_models_index(args@, i as int + 1);
                        }
                        match &args[i + 1] {
                            DS::BulkString(d) => {
                                match millis_of(d) {
                                    Some(ms) => {
                                        match now.checked_add(ms) {
                                            Some(e) => {
                                                set_options.expiry = Some(e);
                                            },
                                            None => {
                                                proof {
                                                    reveal_strlit("-ERROR Expiry out of range\r\n");
                                                }
                                                return text1("-ERROR Expiry out of range\r\n");
                                            },
                                        }
                                    },
                                    None => {
                                        proof {
                                            reveal_strlit("-ERROR Invalid value for px\r\n");
                                        }
                                        return text1("-ERROR Invalid value for px\r\n");
                                    },
                                }
                            },
                            _ => {},
                        }
                        i = i + 2;
                    } else {
                        i = i + 1;
                    }
                },
                _ => {
                    proof {
                        reveal_strlit("-ERROR Invalid argument type");
                    }
                    return text1("-ERROR Invalid argument type");
                },
            }
        }
        store.set(key, DataItem { data: value, expiry: set_options.expiry });
        proof {
            reveal_strlit("+OK\r\n");
        }
        text1("+OK\r\n")
    }

    fn do_get(&self, args: &Vec<DS>, store: &mut DataStore, now: u64) -> (r: Vec<
        InterpreterResponse,
    >)
        requires
            old(store).wf(),
        ensures
            final(store).wf(),
            ({
                let (m2, outs) = get_step(ds_models(args@), old(store)@, now);
                final(store)@ == m2 && resp_models(r@) == outs
            }),
    {
        proof {
            lemma_ds_models_len(args@);
        }
        if args.len() == 0 {
            proof {
                reveal_strlit("-ERROR Expected a key\r\n");
            }
            return text1("-ERROR Expected a key\r\n");
        }
        proof {
            lemma_ds_models_index(args@, 0);
        }
        let key = match &args[0] {
            DS::BulkString(b) => copy_range(b, 0, b.len()),
            _ => {
                proof {
                    reveal_strlit("-ERROR Expected the key to be a string");
                }
                return text1("-ERROR Expected the key to be a string");
            },
        };
        proof {
            assert(key@ =~= ds_models(args@)[0]->Bulk_0);
        }
        match store.get(&key, now) {
            Some(item) => one_text(Helper::build_resp(&Reply::ReplyBulkString(item.data))),
            None => {
                proof {
                    reveal_strlit("$-1\r\n");
                }
                text1("$-1\r\n")
            },
        }
    }

    fn do_config(&self, args: &Vec<DS>, opts: &mut ServerOptions) -> (r: Vec<InterpreterResponse>)
        ensures
            ({
                let (o2, outs) = config_step(ds_models(args@), old(opts)@);
                final(opts)@ == o2 && resp_models(r@) == outs
            }),
    {
        proof {
            lemma_ds_models_len(args@);
        }
        if args.len() == 0 {
            proof {
                reveal_strlit("-ERROR config action invalid");
            }
            return text1("-ERROR config action invalid");
        }
        proof {
            lemma_ds_models_index(args@, 0);
        }
        let action = match &args[0] {
            DS::BulkString(ab) => to_lower(ab),
            _ => {
                proof {
                    reveal_strlit("-ERROR config action invalid");
                }
                return text1("-ERROR config action invalid");
            },
        };
        proof {
            reveal_strlit("get");
            reveal_strlit("set");
            reveal_strlit("dir");
            reveal_strlit("dbfilename");
        }
        let get_lit = str_bytes("get");
        let set_lit = str_bytes("set");
        let dir_lit = str_bytes("dir");
        let file_lit = str_bytes("dbfilename");
        if bytes_eq(&action, &get_lit) {
            if args.len() < 2 {
                return one_text(Vec::new());
            }
            proof {
                lemma_ds_models_index(args@, 1);
            }
            let key = args[1].get_value();
            if bytes_eq(&key, &dir_lit) {
                match &opts.rdb_dir_name {
                    Some(d) => {
                        let mut rs: Vec<Reply> = Vec::new();
                        rs.push(Reply::ReplyBulkString(str_bytes("dir")));
                        rs.push(Reply::ReplyBulkString(copy_range(d, 0, d.len())));
                        proof {
                            assert(rs@ =~= seq![rs@[0], rs@[1]]);
                            lemma_reply_models2(rs@, rs@[0], rs@[1]);
                            assert(reply_model(rs@[1]) == DsModel::Bulk(d@)) by {
                                assert(d@.subrange(0, d@.len() as int) =~= d@);
                            }
                        }
                        one_text(Helper::build_resp(&Reply::ReplyArray(rs)))
                    },
                    None => {
                        proof {
                            reveal_strlit("-ERROR no directory configured\r\n");
                        }
                        text1("-ERROR no directory configured\r\n")
                    },
                }
            } else if bytes_eq(&key, &file_lit) {
                match &opts.rdb_file_name {
                    Some(f) => {
                        let mut rs: Vec<Reply> = Vec::new();
                        rs.push(Reply::ReplyBulkString(str_bytes("dbfilename")));
                        rs.push(Reply::ReplyBulkString(copy_range(f, 0, f.len())));
                        proof {
                            assert(rs@ =~= seq![rs@[0], rs@[1]]);
                            lemma_reply_models2(rs@, rs@[0], rs@[1]);
                            assert(reply_model(rs@[1]) == DsModel::Bulk(f@)) by {
                                assert(f@.subrange(0, f@.len() as int) =~= f@);
                            }
                        }
                        one_text(Helper::build_resp(&Reply::ReplyArray(rs)))
                    },
                    None => {
                        proof {
                            reveal_strlit("-ERROR no db file name configured\r\n");
                        }
                        text1("-ERROR no db file name configured\r\n")
                    },
                }
            } else {
                one_text(Vec::new())
            }
        } else if bytes_eq(&action, &set_lit) {
            if args.len() < 2 {
                proof {
                    reveal_strlit("-ERROR no config key sent\r\n");
                }
                return text1("-ERROR no config key sent\r\n");
            }
            proof {
                lemma_ds_models_index(args@, 1);
            }
            let key = args[1].get_value();
            if bytes_eq(&key, &dir_lit) {
                if args.len() < 3 {
                    proof {
                        reveal_strlit("-ERROR no config value sent\r\n");
                    }
                    return text1("-ERROR no config value sent\r\n");
                }
                proof {
                    lemma_ds_models_index(args@, 2);
                }
                let v = args[2].get_value();
                opts.rdb_dir_name = Some(v);
                proof {
                    reveal_strlit("+OK\r\n");
                }
                text1("+OK\r\n")
            } else if bytes_eq(&key, &file_lit) {
                if args.len() < 3 {
                    proof {
                        reveal_strlit("-ERROR no config value sent\r\n");
                    }
                    return text1("-ERROR no config value sent\r\n");
                }
                proof {
                    lemma_ds_models_index(args@, 2);
                }
                let v = args[2].get_value();
                opts.rdb_file_name = Some(v);
                proof {
                    reveal_strlit("+OK\r\n");
                }
                text1("+OK\r\n")
            } else {
                proof {
                    reveal_strlit("-ERROR trying to set invalid config option\r\n");
                }
                text1("-ERROR trying to set invalid config option\r\n")
            }
        } else {
            proof {
                reveal_strlit("-ERROR config action invalid");
            }
            text1("-ERROR config action invalid")
        }
    }

    fn do_keys(&self, store: &DataStore) -> (r: Vec<InterpreterResponse>)
        ensures
            resp_models(r@) == keys_outs(store@),
    {
        let keys = store.all_keys();
        let mut rs: Vec<Reply> = Vec::new();
        let mut i: usize = 0;
        while i < keys.len()
            invariant
                rs@.len() == i,
                i <= keys@.len(),
                forall|j: int|
                    0 <= j < i ==> reply_model(#[trigger] rs@[j]) == DsModel::Bulk(keys@[j]@),
            decreases keys@.len() - i,
        {
            rs.push(Reply::ReplyBulkString(copy_range(&keys[i], 0, keys[i].len())));
            proof {
                assert(reply_model(rs@[i as int]) == DsModel::Bulk(keys@[i as int]@)) by {
                    assert(keys@[i as int]@.subrange(0, keys@[i as int]@.len() as int)
                        =~= keys@[i as int]@);
                }
            }
            i = i + 1;
        }
        proof {
            assert forall|j: int| 0 <= j < rs@.len()
                implies reply_models(rs@)[j] == bulks_of(mem_keys(store@))[j] by {
                crate::helpers::lemma_reply_models_index(rs@, j);
            }
            lemma_reply_models_len(rs@);
            assert(reply_models(rs@) =~= bulks_of(mem_keys(store@)));
        }
        one_text(Helper::build_resp(&Reply::ReplyArray(rs)))
    }

    fn do_info(&self, args: &Vec<DS>, opts: &ServerOptions) -> (r: Vec<InterpreterResponse>)
        ensures
            resp_models(r@) == info_outs(ds_models(args@), opts@),
    {
        proof {
            lemma_ds_models_len(args@);
        }
        let mut arg_ok = false;
        if args.len() >= 1 {
            proof {
                lemma_ds_models_index(args@, 0);
            }
            match &args[0] {
                DS::BulkString(_) => {
                    arg_ok = true;
                },
                _ => {},
            }
        }
        if !arg_ok {
            proof {
                reveal_strlit("-invalid argument for `info` command");
            }
            return one_text(
                Helper::build_resp(
                    &Reply::ReplyString(str_bytes("-invalid argument for `info` command")),
                ),
            );
        }
        match &opts.server_role {
            Some(ServerRole::Slave(_)) => {
                proof {
                    reveal_strlit("role:slave");
                }
                one_text(Helper::build_resp(&Reply::ReplyBulkString(str_bytes("role:slave"))))
            },
            Some(ServerRole::Master(Some(m))) => {
                proof {
                    reveal_strlit("role:master\r\nmaster_replid:");
                    reveal_strlit("\r\nmaster_repl_offset:");
                }
                let mut c = str_bytes("role:master\r\nmaster_replid:");
                push_all(&mut c, &m.master_replid);
                let t = str_bytes("\r\nmaster_repl_offset:");
                push_all(&mut c, &t);
                push_decimal(&mut c, m.master_repl_offset as u64);
                proof {
                    assert(c@ =~= master_info_line(m.master_replid@, m.master_repl_offset));
                }
                one_text(Helper::build_resp(&Reply::ReplyBulkString(c)))
            },
            _ => {
                proof {
                    reveal_strlit("role:master");
                }
                one_text(Helper::build_resp(&Reply::ReplyBulkString(str_bytes("role:master"))))
            },
        }
    }

    fn do_psync(&self, opts: &ServerOptions) -> (r: Vec<InterpreterResponse>)
        ensures
            resp_models(r@) == psync_outs(opts@),
    {
        match &opts.server_role {
            Some(ServerRole::Master(Some(m))) => {
                proof {
                    reveal_strlit("FULLRESYNC ");
                    reveal_strlit(" ");
                }
                let mut line = str_bytes("FULLRESYNC ");
                push_all(&mut line, &m.master_replid);
                let sp = str_bytes(" ");
                push_all(&mut line, &sp);
                push_decimal(&mut line, m.master_repl_offset as u64);
                proof {
                    assert(line@ =~= fullresync_line(m.master_replid@, m.master_repl_offset));
                }
                let first = Helper::build_resp(&Reply::ReplyBulkString(line));
                proof {
                    reveal_strlit(
                        "UkVESVMwMDEx+glyZWRpcy12ZXIFNy4yLjD6CnJlZGlzLWJpdHPAQPoFY3RpbWXCbQi8ZfoIdXNlZC1tZW3CsMQQAPoIYW9mLWJhc2XAAP/wbjv+wP9aog==",
                    );
                }
                let b64 = str_bytes(
                    "UkVESVMwMDEx+glyZWRpcy12ZXIFNy4yLjD6CnJlZGlzLWJpdHPAQPoFY3RpbWXCbQi8ZfoIdXNlZC1tZW3CsMQQAPoIYW9mLWJhc2XAAP/wbjv+wP9aog==",
                );
                match base64_decode(&b64) {
                    Some(rdb) => {
                        let mut frame: Vec<u8> = Vec::new();
                        frame.push(DOLLAR);
                        proof {
                            assert(rdb.len() == rdb@.len());
                        }
                        push_decimal(&mut frame, rdb.len() as u64);
                        frame.push(CR);
                        frame.push(LF);
                        push_all(&mut frame, &rdb);
                        proof {
                            assert(frame@ =~= rdb_frame(base64_decoded(empty_rdb_b64())));
                        }
                        let ghost gfirst = first@;
                        let ghost gframe = frame@;
                        let mut r: Vec<InterpreterResponse> = Vec::new();
                        r.push(InterpreterResponse::Text(first));
                        r.push(InterpreterResponse::Bytes(frame));
                        proof {
                            assert(resp_models(r@) =~= seq![
                                OutModel::Text(gfirst),
                                OutModel::Raw(gframe),
                            ]);
                            assert(resp_models(r@) == psync_outs(opts@));
                        }
                        r
                    },
                    None => {
                        proof {
                            reveal_strlit("-ERROR Can not decode the empty snapshot\r\n");
                        }
                        let r = text1("-ERROR Can not decode the empty snapshot\r\n");
                        proof {
                            assert(resp_models(r@) == psync_outs(opts@));
                        }
                        r
                    },
                }
            },
            _ => {
                proof {
                    reveal_strlit("-Error can only ask for psync from master");
                }
                let r = one_text(
                    Helper::build_resp(
                        &Reply::ReplyBulkString(
                            str_bytes("-Error can only ask for psync from master"),
                        ),
                    ),
                );
                proof {
                    assert(resp_models(r@) == psync_outs(opts@));
                }
                r
            },
        }
    }

    /// Interprets one request against the store and the configuration at
    /// time `now_ms`, returning the serialized replies. `interpret_spec`
    /// says exactly what it does.
    pub fn interpret(
        &self,
        ds: DS,
        store: &mut DataStore,
        opts: &mut ServerOptions,
        now_ms: u64,
    ) -> (r: Vec<InterpreterResponse>)
        requires
            old(store).wf(),
        ensures
            final(store).wf(),
            interpret_spec(ds_model(ds), old(store)@, old(opts)@, now_ms) == (Effect {
                mem: final(store)@,
                opts: final(opts)@,
                outs: resp_models(r@),
            }),
    {
        let ghost req = ds_model(ds);
        let ghost mem0 = store@;
        let ghost opts0 = opts@;
        match ds {
            DS::RedArray(a) => {
                let ghost v0 = a.value@;
                let mut items = a.value;
                proof {
                    lemma_ds_models_len(v0);
                }
                if items.len() == 0 {
                    proof {
                        reveal_strlit("- Error while interpreting the message");
                    }
                    let r = text1("- Error while interpreting the message");
                    proof {
                        assert(interpret_spec(req, mem0, opts0, now_ms) == (Effect {
                            mem: store@,
                            opts: opts@,
                            outs: resp_models(r@),
                        }));
                    }
                    return r;
                }
                let first = items.remove(0);
                proof {
                    assert(v0.remove(0) =~= v0.drop_first());
                    lemma_ds_models_index(v0, 0);
                }
                match first {
                    DS::BulkString(name) => {
                        let cmd = to_lower(&name);
                        proof {
                            assert(ds_models(v0)[0] == DsModel::Bulk(name@));
                            assert(ds_models(v0).drop_first() =~= ds_models(v0.drop_first()));
                            assert(command_of(req) == Some(
                                (lower_bytes(name@), ds_models(items@)),
                            ));
                        }
                        proof {
                            reveal_strlit("echo");
                            reveal_strlit("set");
                            reveal_strlit("get");
                            reveal_strlit("config");
                            reveal_strlit("keys");
                            reveal_strlit("info");
                            reveal_strlit("psync");
                            reveal_strlit("ping");
                        }
                        if bytes_eq(&cmd, &str_bytes("echo")) {
                            let r = self.do_echo(&items);
                            proof {
                                assert(interpret_spec(req, mem0, opts0, now_ms) == (Effect {
                                    mem: store@,
                                    opts: opts@,
                                    outs: resp_models(r@),
                                }));
                            }
                            r
                        } else if bytes_eq(&cmd, &str_bytes("set")) {
                            let r = self.do_set(&items, store, now_ms);
                            proof {
                                assert(interpret_spec(req, mem0, opts0, now_ms) == (Effect {
                                    mem: store@,
                                    opts: opts@,
                                    outs: resp_models(r@),
                                }));
                            }
                            r
                        } else if bytes_eq(&cmd, &str_bytes("get")) {
                            let r = self.do_get(&items, store, now_ms);
                            proof {
                                assert(interpret_spec(req, mem0, opts0, now_ms) == (Effect {
                                    mem: store@,
                                    opts: opts@,
                                    outs: resp_models(r@),
                                }));
                            }
                            r
                        } else if bytes_eq(&cmd, &str_bytes("config")) {
                            let r = self.do_config(&items, opts);
                            proof {
                                assert(interpret_spec(req, mem0, opts0, now_ms) == (Effect {
                                    mem: store@,
                                    opts: opts@,
                                    outs: resp_models(r@),
                                }));
                            }
                            r
                        } else if bytes_eq(&cmd, &str_bytes("keys")) {
                            let r = self.do_keys(store);
                            proof {
                                assert(interpret_spec(req, mem0, opts0, now_ms) == (Effect {
                                    mem: store@,
                                    opts: opts@,
                                    outs: resp_models(r@),
                                }));
                            }
                            r
                        } else if bytes_eq(&cmd, &str_bytes("info")) {
                            let r = self.do_info(&items, opts);
                            proof {
                                assert(interpret_spec(req, mem0, opts0, now_ms) == (Effect {
                                    mem: store@,
                                    opts: opts@,
                                    outs: resp_models(r@),
                                }));
                            }
                            r
                        } else if bytes_eq(&cmd, &str_bytes("psync")) {
                            let r = self.do_psync(opts);
                            proof {
                                assert(interpret_spec(req, mem0, opts0, now_ms) == (Effect {
                                    mem: store@,
                                    opts: opts@,
                                    outs: resp_models(r@),
                                }));
                            }
                            r
                        } else if bytes_eq(&cmd, &str_bytes("ping")) {
                            proof {
                                reveal_strlit("+PONG\r\n");
                            }
                            let r = text1("+PONG\r\n");
                            proof {
                                assert(interpret_spec(req, mem0, opts0, now_ms) == (Effect {
                                    mem: store@,
                                    opts: opts@,
                                    outs: resp_models(r@),
                                }));
                            }
                            r
                        } else {
                            proof {
                                reveal_strlit("+OK\r\n");
                            }
                            let r = text1("+OK\r\n");
                            proof {
                                assert(interpret_spec(req, mem0, opts0, now_ms) == (Effect {
                                    mem: store@,
                                    opts: opts@,
                                    outs: resp_models(r@),
                                }));
                            }
                            r
                        }
                    },
                    _ => {
                        proof {
                            reveal_strlit("- Error while interpreting the message");
                        }
                        let r = text1("- Error while interpreting the message");
                        proof {
                            assert(command_of(req) is None);
                            assert(interpret_spec(req, mem0, opts0, now_ms) == (Effect {
                                mem: store@,
                                opts: opts@,
                                outs: resp_models(r@),
                            }));
                        }
                        r
                    },
                }
            },
            _ => {
                proof {
                    reveal_strlit("- Error while interpreting the message");
                }
                let r = text1("- Error while interpreting the message");
                proof {
                    assert(interpret_spec(req, mem0, opts0, now_ms) == (Effect {
                        mem: store@,
                        opts: opts@,
                        outs: resp_models(r@),
                    }));
                }
                r
            },
        }
    }
}

} // verus!
