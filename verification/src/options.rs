//! The server configuration: snapshot directory and file name, listening
//! port, and the server's replication role. The directory and file name
//! are mutable at runtime through the `CONFIG SET` command.

use vstd::prelude::*;

verus! {

/// Where the master lives, for a slave.
#[derive(Clone)]
pub struct SlaveServerOptions {
    pub master_host: Vec<u8>,
    pub master_port: u32,
}

/// The master's replication identity.
#[derive(Clone)]
pub struct MasterServerOptions {
    pub master_replid: Vec<u8>,
    pub master_repl_offset: u32,
}

#[derive(Clone)]
pub enum ServerRole {
    Master(Option<MasterServerOptions>),
    Slave(SlaveServerOptions),
}

/// The runtime configuration.
#[derive(Clone)]
pub struct ServerOptions {
    pub rdb_file_name: Option<Vec<u8>>,
    pub rdb_dir_name: Option<Vec<u8>>,
    pub port: Option<u32>,
    pub server_role: Option<ServerRole>,
}

/// The model of a role.
pub enum RoleModel {
    NoRole,
    MasterNoInfo,
    MasterWith { replid: Seq<u8>, offset: u32 },
    SlaveOf { host: Seq<u8>, port: u32 },
}

/// The model of the configuration.
pub struct OptionsModel {
    pub file: Option<Seq<u8>>,
    pub dir: Option<Seq<u8>>,
    pub port: Option<u32>,
    pub role: RoleModel,
}

impl View for ServerOptions {
    type V = OptionsModel;

    open spec fn view(&self) -> OptionsModel {
        OptionsModel {
            file: match self.rdb_file_name {
                Some(f) => Some(f@),
                None => None,
            },
            dir: match self.rdb_dir_name {
                Some(d) => Some(d@),
                None => None,
            },
            port: self.port,
            role: match self.server_role {
                None => RoleModel::NoRole,
                Some(ServerRole::Master(None)) => RoleModel::MasterNoInfo,
                Some(ServerRole::Master(Some(m))) => RoleModel::MasterWith {
                    replid: m.master_replid@,
                    offset: m.master_repl_offset,
                },
                Some(ServerRole::Slave(s)) => RoleModel::SlaveOf {
                    host: s.master_host@,
                    port: s.master_port,
                },
            },
        }
    }
}

} // verus!
