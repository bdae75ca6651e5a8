//! This device's own identity: made once, kept in a file, read back at
//! every later start.

use vstd::prelude::*;
use vstd::string::StringExecFns;
use crate::error::Failure;
use crate::model::{Info, InfoView};
use crate::id::{is_random_shaped, random_id};

verus! {

/// Alias of a device that was given none.
pub const DEFAULT_ALIAS: &'static str = "Peer";

/// Port of the rendezvous service where none is configured.
pub const TCP_PORT: u16 = 8000;

/// Name of the file that keeps the identity.
pub const IDENTITY_FILE: &'static str = "device.json";

impl Info {
    /// The same device under another alias.
    pub fn with_alias(self, alias: String) -> (out: Info)
        ensures
            out@ == (InfoView { id: self.id, alias: alias@, port: self.port }),
    {
        Info { id: self.id, alias, port: self.port }
    }

    /// The same device with its service on another port.
    pub fn with_port(self, port: u16) -> (out: Info)
        ensures
            out@ == (InfoView { id: self.id, alias: self.alias@, port }),
    {
        Info { id: self.id, alias: self.alias, port }
    }

    /// A new identity with a random id, the default alias and the default
    /// port.
    pub fn generate() -> (out: Info)
        ensures
            out.alias@ == DEFAULT_ALIAS@,
            out.port == TCP_PORT,
            is_random_shaped(out.id),
    {
        Info { id: random_id(), alias: String::from_str(DEFAULT_ALIAS), port: TCP_PORT }
    }
}

/// What was found where the identity is kept.
#[derive(Debug, PartialEq, Eq)]
pub enum Stored {
    /// There is no file.
    Absent,
    /// There is a file, and it cannot be read.
    Unreadable,
    /// The file was read, and it does not hold an identity.
    Malformed,
    /// The file holds this identity.
    Found(Info),
}

/// The identity to start with, and whether it still has to be written.
#[derive(Debug, PartialEq, Eq)]
pub struct Startup {
    pub info: Info,
    pub persist: bool,
}

/// Decides the identity of this run from what the identity file gave.
///
/// A stored identity is taken as it is. Where there is no file, a new
/// identity is generated and has to be persisted. A file that exists but
/// cannot be read or understood is an error: it is never overwritten.
pub fn load_or_create(stored: Stored) -> (out: Result<Startup, Failure>)
    ensures
        match stored {
            Stored::Absent => out matches Ok(s) && s.persist && s.info.alias@ == DEFAULT_ALIAS@
                && s.info.port == TCP_PORT && is_random_shaped(s.info.id),
            Stored::Unreadable => out == Err::<Startup, Failure>(Failure::Io),
            Stored::Malformed => out == Err::<Startup, Failure>(Failure::Serialization),
            Stored::Found(info) => out matches Ok(s) && s.info == info && !s.persist,
        },
{
    match stored {
        Stored::Absent => Ok(Startup { info: Info::generate(), persist: true }),
        Stored::Unreadable => Err(Failure::Io),
        Stored::Malformed => Err(Failure::Serialization),
        Stored::Found(info) => Ok(Startup { info, persist: false }),
    }
}

} // verus!
