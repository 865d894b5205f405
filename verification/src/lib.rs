//! The core of a terminal session manager: the wire protocol between clients
//! and daemons, the registry of sessions on disk, the event logs, the
//! manifests, key names and terminal input, and what each client does with
//! what it reads. Every function is verified; reading and writing the outside
//! world is left to the caller, who hands plain values in and carries out what
//! comes back.

pub mod client;
pub mod text;
pub mod events;
pub mod input;
pub mod keys;
pub mod json;
pub mod manifest;
pub mod maps;
pub mod pairs;
pub mod paste;
pub mod paths;
pub mod proctable;
pub mod protocol;
pub mod ptyfile;
pub mod registry;
pub mod spawn;
pub mod stats;
pub mod unix_connect;
pub mod unix_peer;
pub mod wait;
