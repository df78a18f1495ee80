//! The slave-side replication handshake engine: a state machine driven by
//! the replies read from the master connection, emitting at most one next
//! handshake command per reply and never moving backward.

use vstd::prelude::*;
use crate::bytes_util::{ascii_of, bytes_eq, copy_range, dec_digits, lower_bytes, str_bytes,
    to_lower, push_decimal};
use crate::helpers::{Helper, Reply, lemma_reply_models3};
use crate::parser::DS;
use crate::wire::{DsModel, wire_of};

verus! {

/// Where the handshake stands. `ReplConf2Sent` is terminal: the handshake
/// is complete and further master traffic is a one-directional command
/// stream.
#[derive(Clone, Copy, PartialEq, Eq, Structural, Debug)]
pub enum ClientConnectionState {
    BeforePing,
    PingSentSuccessfully,
    ReplConf1Sent,
    ReplConf2Sent,
}

/// The reply text the engine reads from a registered value: the
/// case-folded content of a simple or bulk string; any other value is not
/// a string reply.
pub open spec fn reply_text(ds: Option<DS>) -> Option<Seq<u8>> {
    match ds {
        Some(DS::SimpleString(b)) => Some(lower_bytes(b@)),
        Some(DS::BulkString(b)) => Some(lower_bytes(b@)),
        _ => None,
    }
}

/// The reply acknowledging the snapshot: `FULLRESYNC <id> <offset>`,
/// matched case-insensitively by its leading word.
pub open spec fn is_fullresync(t: Seq<u8>) -> bool {
    t.len() >= 10 && t.subrange(0, 10) == ascii_of("fullresync"@)
}

pub open spec fn replconf_port_cmd(port: u32) -> Seq<u8> {
    wire_of(
        DsModel::Arr(
            seq![
                DsModel::Bulk(ascii_of("REPLCONF"@)),
                DsModel::Bulk(ascii_of("listening-port"@)),
                DsModel::Bulk(dec_digits(port as nat)),
            ],
        ),
    )
}

pub open spec fn replconf_capa_cmd() -> Seq<u8> {
    wire_of(
        DsModel::Arr(
            seq![
                DsModel::Bulk(ascii_of("REPLCONF"@)),
                DsModel::Bulk(ascii_of("capa"@)),
                DsModel::Bulk(ascii_of("psync2"@)),
            ],
        ),
    )
}

pub open spec fn psync_cmd() -> Seq<u8> {
    wire_of(
        DsModel::Arr(
            seq![
                DsModel::Bulk(ascii_of("PSYNC"@)),
                DsModel::Bulk(ascii_of("?"@)),
                DsModel::Bulk(ascii_of("-1"@)),
            ],
        ),
    )
}

pub open spec fn handshake_err() -> Seq<u8> {
    wire_of(DsModel::Bulk(ascii_of("-ERROR Invalid Command"@)))
}

/// One transition of the handshake: from the current state and the reply
/// just read, the next state and the command to send, if any. An
/// unexpected reply leaves the state unchanged and answers with an error.
pub open spec fn handshake_step(st: ClientConnectionState, reply: Option<Seq<u8>>, port: u32) -> (
    ClientConnectionState,
    Option<Seq<u8>>,
) {
    match reply {
        None => (st, Some(handshake_err())),
        Some(t) => if st is BeforePing && t == ascii_of("pong"@) {
            (ClientConnectionState::PingSentSuccessfully, Some(replconf_port_cmd(port)))
        } else if st is PingSentSuccessfully && t == ascii_of("ok"@) {
            (ClientConnectionState::ReplConf1Sent, Some(replconf_capa_cmd()))
        } else if st is ReplConf1Sent && t == ascii_of("ok"@) {
            (ClientConnectionState::ReplConf2Sent, Some(psync_cmd()))
        } else if st is ReplConf2Sent && is_fullresync(t) {
            (ClientConnectionState::ReplConf2Sent, None)
        } else {
            (st, Some(handshake_err()))
        },
    }
}

/// The handshake engine for one slave-to-master connection.
pub struct ReplicationInterpreter {
    pub source_ds: Option<DS>,
    pub port: u32,
    pub state: ClientConnectionState,
}

impl ReplicationInterpreter {
    /// A fresh engine, before the `PING` has been answered.
    pub fn new(ds: Option<DS>, listening_port: &u32) -> (r: ReplicationInterpreter)
        ensures
            r.state == ClientConnectionState::BeforePing,
            r.port == *listening_port,
            r.source_ds == ds,
    {
        ReplicationInterpreter {
            source_ds: ds,
            port: *listening_port,
            state: ClientConnectionState::BeforePing,
        }
    }

    /// Registers the next parsed reply from the master.
    pub fn register(&mut self, ds: DS)
        ensures
            final(self).source_ds == Some(ds),
            final(self).port == old(self).port,
            final(self).state == old(self).state,
    {
        self.source_ds = Some(ds);
    }

    /// Advances the handshake by one reply: exactly the transition that
    /// `handshake_step` gives for the registered reply.
    pub fn interpret(&mut self) -> (r: Option<Vec<u8>>)
        ensures
            final(self).port == old(self).port,
            final(self).source_ds == old(self).source_ds,
            ({
                let (st2, out) = handshake_step(
                    old(self).state,
                    reply_text(old(self).source_ds),
                    old(self).port,
                );
                final(self).state == st2 && (match (r, out) {
                    (Some(v), Some(o)) => v@ == o,
                    (None, None) => true,
                    _ => false,
                })
            }),
    {
        let text: Vec<u8> = match &self.source_ds {
            Some(DS::SimpleString(b)) => to_lower(b),
            Some(DS::BulkString(b)) => to_lower(b),
            _ => {
                return Some(Self::error_reply());
            },
        };
        proof {
            reveal_strlit("pong");
            reveal_strlit("ok");
            reveal_strlit("fullresync");
        }
        let is_before_ping = match self.state {
            ClientConnectionState::BeforePing => true,
            _ => false,
        };
        if is_before_ping && bytes_eq(&text, &str_bytes("pong")) {
            self.state = ClientConnectionState::PingSentSuccessfully;
            proof {
                reveal_strlit("REPLCONF");
                reveal_strlit("listening-port");
            }
            let mut rs: Vec<Reply> = Vec::new();
            rs.push(Reply::ReplyBulkString(str_bytes("REPLCONF")));
            rs.push(Reply::ReplyBulkString(str_bytes("listening-port")));
            let mut p: Vec<u8> = Vec::new();
            push_decimal(&mut p, self.port as u64);
            rs.push(Reply::ReplyBulkString(p));
            proof {
                assert(rs@ =~= seq![rs@[0], rs@[1], rs@[2]]);
                lemma_reply_models3(rs@, rs@[0], rs@[1], rs@[2]);
            }
            return Some(Helper::build_resp(&Reply::ReplyArray(rs)));
        }
        let is_ping_sent = match self.state {
            ClientConnectionState::PingSentSuccessfully => true,
            _ => false,
        };
        if is_ping_sent && bytes_eq(&text, &str_bytes("ok")) {
            self.state = ClientConnectionState::ReplConf1Sent;
            proof {
                reveal_strlit("REPLCONF");
                reveal_strlit("capa");
                reveal_strlit("psync2");
            }
            let mut rs: Vec<Reply> = Vec::new();
            rs.push(Reply::ReplyBulkString(str_bytes("REPLCONF")));
            rs.push(Reply::ReplyBulkString(str_bytes("capa")));
            rs.push(Reply::ReplyBulkString(str_bytes("psync2")));
            proof {
                assert(rs@ =~= seq![rs@[0], rs@[1], rs@[2]]);
                lemma_reply_models3(rs@, rs@[0], rs@[1], rs@[2]);
            }
            return Some(Helper::build_resp(&Reply::ReplyArray(rs)));
        }
        let is_replconf1 = match self.state {
            ClientConnectionState::ReplConf1Sent => true,
            _ => false,
        };
        if is_replconf1 && bytes_eq(&text, &str_bytes("ok")) {
            self.state = ClientConnectionState::ReplConf2Sent;
            proof {
                reveal_strlit("PSYNC");
                reveal_strlit("?");
                reveal_strlit("-1");
            }
            let mut rs: Vec<Reply> = Vec::new();
            rs.push(Reply::ReplyBulkString(str_bytes("PSYNC")));
            rs.push(Reply::ReplyBulkString(str_bytes("?")));
            rs.push(Reply::ReplyBulkString(str_bytes("-1")));
            proof {
                assert(rs@ =~= seq![rs@[0], rs@[1], rs@[2]]);
                lemma_reply_models3(rs@, rs@[0], rs@[1], rs@[2]);
            }
            return Some(Helper::build_resp(&Reply::ReplyArray(rs)));
        }
        let is_terminal = match self.state {
            ClientConnectionState::ReplConf2Sent => true,
            _ => false,
        };
        if is_terminal && text.len() >= 10 {
            let head = copy_range(&text, 0, 10);
            if bytes_eq(&head, &str_bytes("fullresync")) {
                return None;
            }
        }
        Some(Self::error_reply())
    }

    fn error_reply() -> (r: Vec<u8>)
        ensures
            r@ == handshake_err(),
    {
        proof {
            reveal_strlit("-ERROR Invalid Command");
        }
        Helper::build_resp(&Reply::ReplyBulkString(str_bytes("-ERROR Invalid Command")))
    }
}

/// How far the handshake has come.
pub open spec fn state_rank(st: ClientConnectionState) -> nat {
    match st {
        ClientConnectionState::BeforePing => 0,
        ClientConnectionState::PingSentSuccessfully => 1,
        ClientConnectionState::ReplConf1Sent => 2,
        ClientConnectionState::ReplConf2Sent => 3,
    }
}

/// The handshake never moves backward: whatever reply arrives, the state
/// keeps or increases its progress.
pub proof fn lemma_handshake_never_regresses(
    st: ClientConnectionState,
    reply: Option<Seq<u8>>,
    port: u32,
)
    ensures
        state_rank(handshake_step(st, reply, port).0) >= state_rank(st),
{
}

/// Feeding the reply sequence `PONG`, `OK`, `OK`, `FULLRESYNC <id> <off>`
/// into a fresh engine drives it through all four states in order, and
/// each reply yields at most one command (the terminal reply yields
/// none).
pub proof fn lemma_handshake_sequence(port: u32, fr: Seq<u8>)
    requires
        is_fullresync(fr),
    ensures
        ({
            let (s1, o1) = handshake_step(
                ClientConnectionState::BeforePing,
                Some(ascii_of("pong"@)),
                port,
            );
            let (s2, o2) = handshake_step(s1, Some(ascii_of("ok"@)), port);
            let (s3, o3) = handshake_step(s2, Some(ascii_of("ok"@)), port);
            let (s4, o4) = handshake_step(s3, Some(fr), port);
            s1 == ClientConnectionState::PingSentSuccessfully && o1 == Some(
                replconf_port_cmd(port),
            ) && s2 == ClientConnectionState::ReplConf1Sent && o2 == Some(replconf_capa_cmd())
                && s3 == ClientConnectionState::ReplConf2Sent && o3 == Some(psync_cmd()) && s4
                == ClientConnectionState::ReplConf2Sent && o4 is None
        }),
{
}

} // verus!
