//! The live connection manifest (`~/.bakehouse/connections.json`), kept
//! current on every instance state change so external tools can find and
//! connect to running instances: what it says of each instance. Writing
//! the file happens elsewhere.

use super::model::{Instance, InstanceState, StateSpec};
use crate::text::{extend_str, owned, string_of};
use vstd::prelude::*;

verus! {

/// The manifest's explanatory note.
pub const MANIFEST_NOTE: &'static str = "Maintained by Bakehouse. Instances run only while the app is open; host IPs change on every instance start — always re-read this file before connecting. Connections require trusting the server's self-signed certificate (e.g. sqlcmd -C, TrustServerCertificate=True).";

/// The file's place under the home directory.
pub const MANIFEST_PATH: &'static str = ".bakehouse/connections.json";

/// How to reach a running instance.
pub struct RunningConnection {
    pub host: String,
    pub port: u16,
    pub user: String,
    pub password: String,
    pub connection_string: String,
    pub sqlcmd: String,
}

/// One instance in the manifest.
pub struct ConnectionEntry {
    pub name: String,
    pub id: String,
    pub image: String,
    pub state: String,
    /// Present for a running instance whose password could be read.
    pub running: Option<RunningConnection>,
}

pub open spec fn spec_connection_string(ip: Seq<char>, password: Seq<char>) -> Seq<char> {
    "Server="@ + ip + ",1433;User Id=sa;Password="@ + password + ";TrustServerCertificate=True"@
}

pub open spec fn spec_sqlcmd(ip: Seq<char>, password: Seq<char>) -> Seq<char> {
    "sqlcmd -S "@ + ip + ",1433 -U sa -P '"@ + password + "' -C"@
}

/// Whether the manifest needs the instance's password (only running
/// instances list connection details).
pub fn wants_password(state: &InstanceState) -> (r: bool)
    ensures
        r == (state@ is Running),
{
    match state {
        InstanceState::Running { .. } => true,
        _ => false,
    }
}

/// The manifest entry of an instance in a state; `password` is the
/// instance's password when it could be read.
pub fn connection_entry(inst: &Instance, state: &InstanceState, password: Option<String>) -> (r: ConnectionEntry)
    ensures
        r.name@ == inst.name@,
        r.id@ == inst.id@,
        r.image@ == inst.image@,
        r.state@ == state.spec_label(),
        match (state@, password) {
            (StateSpec::Running { ip }, Some(p)) => r.running matches Some(c) && c.host@ == ip && c.port == 1433
                && c.user@ == "sa"@ && c.password@ == p@ && c.connection_string@ == spec_connection_string(ip, p@)
                && c.sqlcmd@ == spec_sqlcmd(ip, p@),
            _ => r.running is None,
        },
{
    let running = match (state, password) {
        (InstanceState::Running { ip }, Some(p)) => {
            let mut cs: Vec<char> = Vec::new();
            extend_str(&mut cs, "Server=");
            extend_str(&mut cs, ip.as_str());
            extend_str(&mut cs, ",1433;User Id=sa;Password=");
            extend_str(&mut cs, p.as_str());
            extend_str(&mut cs, ";TrustServerCertificate=True");
            let mut sq: Vec<char> = Vec::new();
            extend_str(&mut sq, "sqlcmd -S ");
            extend_str(&mut sq, ip.as_str());
            extend_str(&mut sq, ",1433 -U sa -P '");
            extend_str(&mut sq, p.as_str());
            extend_str(&mut sq, "' -C");
            Some(
                RunningConnection {
                    host: owned(ip.as_str()),
                    port: 1433,
                    user: owned("sa"),
                    password: p,
                    connection_string: string_of(cs.as_slice()),
                    sqlcmd: string_of(sq.as_slice()),
                },
            )
        },
        _ => None,
    };
    ConnectionEntry {
        name: owned(inst.name.as_str()),
        id: owned(inst.id.as_str()),
        image: owned(inst.image.as_str()),
        state: owned(state.label()),
        running,
    }
}

/// The manifest's path under a home directory.
pub fn manifest_path(home: &str) -> (r: String)
    ensures
        r@ == crate::paths::join_path(home@, MANIFEST_PATH@),
{
    crate::paths::path_join(home, MANIFEST_PATH)
}

} // verus!
