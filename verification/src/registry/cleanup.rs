//! Removing a session's files: socket-only cleanup, full cleanup under both
//! locks, and the generation-checked variants that a daemon uses to reap
//! itself without touching a replacement that is starting up.

use super::metadata::{MetaView, SessionMetadata};
use super::root::{
    events_path, metadata_path, pid_path, recovery_revision_path, session_file, socket_path, under,
};
use crate::text::{str_eq, views};
use vstd::prelude::*;

verus! {

/// The socket and the pid file of a session.
pub open spec fn socket_files(root: Seq<char>, name: Seq<char>) -> Seq<Seq<char>> {
    seq![session_file(root, name, ".sock"@), session_file(root, name, ".pid"@)]
}

/// Every file of a session, in the order of removal: the socket and the pid
/// file first, then metadata, events and recovery revision.
pub open spec fn all_files(root: Seq<char>, name: Seq<char>) -> Seq<Seq<char>> {
    socket_files(root, name) + seq![
        session_file(root, name, ".json"@),
        session_file(root, name, ".events.jsonl"@),
        session_file(under(root, ".recovery"@), name, ".revision.json"@),
    ]
}

/// The files that a socket-only cleanup removes; the metadata stays.
pub fn cleanup_socket(root: &str, name: &str) -> (r: Vec<String>)
    ensures
        views(r@) == socket_files(root@, name@),
{
    let mut out: Vec<String> = Vec::new();
    out.push(socket_path(root, name));
    out.push(pid_path(root, name));
    assert(views(out@) =~= socket_files(root@, name@));
    out
}

/// The files that a full cleanup removes, for a caller that owns both locks.
pub fn cleanup_all_while_locked(root: &str, name: &str) -> (r: Vec<String>)
    ensures
        views(r@) == all_files(root@, name@),
{
    let mut out = cleanup_socket(root, name);
    assert(views(out@).len() == 2);
    assert(out@[0]@ == views(out@)[0] && out@[1]@ == views(out@)[1]);
    out.push(metadata_path(root, name));
    out.push(events_path(root, name));
    out.push(recovery_revision_path(root, name));
    assert(views(out@) =~= all_files(root@, name@));
    out
}

/// The files that a cleanup with no locking and no ownership check removes.
pub fn cleanup(root: &str, name: &str) -> (r: Vec<String>)
    ensures
        views(r@) == all_files(root@, name@),
{
    cleanup_all_while_locked(root, name)
}

/// The files that a full cleanup removes once both locks have been tried: a
/// live holder of either refuses, and nothing is touched.
pub fn cleanup_all(root: &str, name: &str, locked: bool) -> (r: Vec<String>)
    ensures
        locked ==> views(r@) == all_files(root@, name@),
        !locked ==> r@.len() == 0,
{
    if locked {
        cleanup_all_while_locked(root, name)
    } else {
        Vec::new()
    }
}

/// The identity a daemon proves before removing files.
#[derive(Debug, Clone, PartialEq, Eq)]
pub struct SessionGenerationOwner {
    pub generation: String,
    pub pid: i32,
}

/// Whether a registry entry still belongs to an owner: no other generation in
/// its metadata, and no other pid in its pid file.
pub open spec fn owns(
    owner: SessionGenerationOwner,
    metadata: Option<MetaView>,
    pid: Option<i32>,
) -> bool {
    &&& metadata matches Some(m) ==> m.generation is None || m.generation == Some(
        owner.generation@,
    )
    &&& pid is None || pid == Some(owner.pid)
}

/// The view of an optional record.
pub open spec fn opt_meta(m: Option<&SessionMetadata>) -> Option<MetaView> {
    match m {
        Some(v) => Some(v@),
        None => None,
    }
}

/// Does the registry entry still belong to `owner`? Metadata generation is
/// primary; the pid file closes the window before metadata is published;
/// legacy records without a generation fall back to pid ownership.
pub fn is_current_generation_owner(
    metadata: Option<&SessionMetadata>,
    pid: Option<i32>,
    owner: &SessionGenerationOwner,
) -> (r: bool)
    ensures
        r == owns(*owner, opt_meta(metadata), pid),
{
    if let Some(m) = metadata {
        if let Some(generation) = &m.generation {
            if !str_eq(generation.as_str(), owner.generation.as_str()) {
                return false;
            }
        }
    }
    if let Some(p) = pid {
        if p != owner.pid {
            return false;
        }
    }
    true
}

/// Generation-safe socket cleanup: the files to remove, or `None` when the
/// lock is held or a replacement now owns the name.
pub fn cleanup_owned_socket(
    root: &str,
    name: &str,
    locked: bool,
    metadata: Option<&SessionMetadata>,
    pid: Option<i32>,
    owner: &SessionGenerationOwner,
) -> (r: Option<Vec<String>>)
    ensures
        match r {
            Some(files) => locked && owns(*owner, opt_meta(metadata), pid) && views(files@)
                == socket_files(root@, name@),
            None => !locked || !owns(*owner, opt_meta(metadata), pid),
        },
{
    if locked && is_current_generation_owner(metadata, pid, owner) {
        Some(cleanup_socket(root, name))
    } else {
        None
    }
}

/// Generation-safe full cleanup: the files to remove, or `None` when either
/// lock is held or a replacement now owns the name.
pub fn cleanup_owned_all(
    root: &str,
    name: &str,
    locked: bool,
    metadata: Option<&SessionMetadata>,
    pid: Option<i32>,
    owner: &SessionGenerationOwner,
) -> (r: Option<Vec<String>>)
    ensures
        match r {
            Some(files) => locked && owns(*owner, opt_meta(metadata), pid) && views(files@)
                == all_files(root@, name@),
            None => !locked || !owns(*owner, opt_meta(metadata), pid),
        },
{
    if locked && is_current_generation_owner(metadata, pid, owner) {
        Some(cleanup_all_while_locked(root, name))
    } else {
        None
    }
}

/// A replacement under the same name is never cleaned away by the daemon it
/// replaced.
pub proof fn law_replacement_is_not_removed(
    owner: SessionGenerationOwner,
    replacement: MetaView,
    pid: Option<i32>,
)
    requires
        replacement.generation is Some,
        replacement.generation != Some(owner.generation@),
    ensures
        !owns(owner, Some(replacement), pid),
{
}

/// The files that go: with the socket its pid file, with the session also the
/// record, the event log and the recovery revision, and no file of another
/// session.
pub proof fn law_files_that_go(root: Seq<char>, name: Seq<char>)
    ensures
        socket_files(root, name) == seq![
            session_file(root, name, ".sock"@),
            session_file(root, name, ".pid"@),
        ],
        all_files(root, name) == seq![
            session_file(root, name, ".sock"@),
            session_file(root, name, ".pid"@),
            session_file(root, name, ".json"@),
            session_file(root, name, ".events.jsonl"@),
            session_file(under(root, ".recovery"@), name, ".revision.json"@),
        ],
{
    assert(all_files(root, name) =~= seq![
        session_file(root, name, ".sock"@),
        session_file(root, name, ".pid"@),
        session_file(root, name, ".json"@),
        session_file(root, name, ".events.jsonl"@),
        session_file(under(root, ".recovery"@), name, ".revision.json"@),
    ]);
}

/// Who owns a session: nothing on disk says otherwise, neither the generation
/// of the record nor the pid.
pub proof fn law_owner_of_a_session(owner: SessionGenerationOwner, m: MetaView, pid: i32)
    ensures
        owns(owner, None, None),
        owns(owner, None, Some(pid)) <==> pid == owner.pid,
        owns(owner, Some(m), None) <==> m.generation is None || m.generation == Some(
            owner.generation@,
        ),
        owns(owner, Some(m), Some(pid)) <==> owns(owner, Some(m), None) && pid == owner.pid,
{
}

/// The record that is seen is the one that is there.
pub proof fn law_record_that_is_seen(m: &SessionMetadata)
    ensures
        opt_meta(Some(m)) == Some(m@),
        opt_meta(None) is None,
{
}

} // verus!
