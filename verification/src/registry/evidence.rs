//! Bounded terminal-evidence reads and generation-fenced removal.
//!
//! A caller can consume one retained generation without racing a new daemon
//! into the stable id: both operations run under the locks that a replacement
//! launch takes.

use super::metadata::SESSION_EXIT_LAST_LINES_LIMIT;
use super::root::{
    events_path, metadata_path, pid_path, recovery_revision_path, session_file, socket_path, under,
};
use crate::json::{
    as_members, as_text, parse_json_bytes, parsed_bytes, Json, JsonMap, JsonView, Members,
};
use crate::pairs::lookup;
use crate::text::{lemma_views_push, opt_view, str_eq, views};
use vstd::prelude::*;

verus! {

/// The largest record that is read: one mebibyte.
pub const METADATA_MAX_BYTES: u64 = 1_048_576;

/// What a caller learns about a session that has ended.
#[derive(Debug, Clone, PartialEq, Eq)]
pub enum SessionExitEvidenceResult {
    Snapshot { snapshot: SessionExitEvidence },
    Unavailable { reason: EvidenceUnavailableReason },
}

/// Why there is no evidence.
#[derive(Debug, Clone, Copy, PartialEq, Eq, Structural)]
pub enum EvidenceUnavailableReason {
    Missing,
    Running,
    Busy,
    GenerationUnavailable,
    InvalidMetadata,
}

/// What one generation of a session left behind.
#[derive(Debug, Clone, PartialEq, Eq)]
pub struct SessionExitEvidence {
    pub name: String,
    pub generation: String,
    pub status: SessionExitStatus,
    pub exit_code: Option<i32>,
    pub stream: EvidenceStream,
    pub tail: SessionExitEvidenceTail,
}

/// How a session ended.
#[derive(Debug, Clone, Copy, PartialEq, Eq, Structural)]
pub enum SessionExitStatus {
    Exited,
    Vanished,
}

/// Which output the last lines are of.
#[derive(Debug, Clone, Copy, PartialEq, Eq, Structural)]
pub enum EvidenceStream {
    Combined,
}

/// The last lines of output, if they were kept.
#[derive(Debug, Clone, PartialEq, Eq)]
pub enum SessionExitEvidenceTail {
    Present { last_lines: Vec<String> },
    Unavailable,
}

/// What came of a removal.
#[derive(Debug, Clone, Copy, PartialEq, Eq, Structural)]
pub enum RemoveSessionGenerationResult {
    Removed,
    Missing,
    GenerationMismatch,
    NotTerminal,
    InvalidMetadata,
    Busy,
}

/// The fields of a record that evidence is made of.
#[derive(Debug, Clone, PartialEq, Eq)]
pub struct EvidenceMetadata {
    pub generation: String,
    pub daemon_pid: Option<i32>,
    pub daemon_start_token: Option<String>,
    pub exited_at: Option<String>,
    pub exit_code: Option<i32>,
    pub last_lines: Option<Vec<String>>,
}

/// The mathematical content of an `EvidenceMetadata`.
#[verifier::ext_equal]
pub struct EvidenceView {
    pub generation: Seq<char>,
    pub daemon_pid: Option<i32>,
    pub daemon_start_token: Option<Seq<char>>,
    pub exited_at: Option<Seq<char>>,
    pub exit_code: Option<i32>,
    pub last_lines: Option<Seq<Seq<char>>>,
}

impl View for EvidenceMetadata {
    type V = EvidenceView;

    open spec fn view(&self) -> EvidenceView {
        EvidenceView {
            generation: self.generation@,
            daemon_pid: self.daemon_pid,
            daemon_start_token: opt_view(self.daemon_start_token),
            exited_at: opt_view(self.exited_at),
            exit_code: self.exit_code,
            last_lines: match self.last_lines {
                Some(l) => Some(views(l@)),
                None => None,
            },
        }
    }
}

/// What reading a record for evidence gives.
#[derive(Debug, Clone, PartialEq, Eq)]
pub enum EvidenceMetadataRead {
    Valid(EvidenceMetadata),
    Missing,
    GenerationUnavailable,
    Invalid,
}

/// What reading a record for evidence gives, by content.
pub enum EvidenceReadView {
    Valid(EvidenceView),
    Missing,
    GenerationUnavailable,
    Invalid,
}

impl View for EvidenceMetadataRead {
    type V = EvidenceReadView;

    open spec fn view(&self) -> EvidenceReadView {
        match self {
            EvidenceMetadataRead::Valid(m) => EvidenceReadView::Valid(m@),
            EvidenceMetadataRead::Missing => EvidenceReadView::Missing,
            EvidenceMetadataRead::GenerationUnavailable => EvidenceReadView::GenerationUnavailable,
            EvidenceMetadataRead::Invalid => EvidenceReadView::Invalid,
        }
    }
}

/// The file of a record, as it was found.
#[derive(Debug, Clone, PartialEq, Eq)]
pub enum MetadataFile {
    /// There is none.
    Missing,
    /// It could not be opened or read, or is no plain file.
    Unreadable,
    /// Its size, and what was read of it.
    Content { size: u64, bytes: Vec<u8> },
}

/// A text that holds something.
pub open spec fn filled_text(v: Option<JsonView>) -> Option<Seq<char>> {
    match as_text(v) {
        Some(s) => if s.len() > 0 {
            Some(s)
        } else {
            None
        },
        None => None,
    }
}

/// An integer of 32 bits.
pub open spec fn small_int(v: JsonView) -> Option<int> {
    match v {
        JsonView::Int(n) => if i32::MIN <= n <= i32::MAX {
            Some(n)
        } else {
            None
        },
        _ => None,
    }
}

/// The daemon's pid: absent, or a positive integer of 32 bits; anything else
/// is invalid (`None`).
pub open spec fn pid_field(record: Members) -> Option<Option<i32>> {
    match lookup(record, "daemonPid"@) {
        None => Some(None),
        Some(v) => match small_int(v) {
            Some(n) => if n > 0 {
                Some(Some(n as i32))
            } else {
                None
            },
            None => None,
        },
    }
}

/// The daemon's start token: its own field, which must hold something, or
/// that of the recovery record.
pub open spec fn token_field(record: Members) -> Option<Option<Seq<char>>> {
    match lookup(record, "daemonStartToken"@) {
        Some(v) => match filled_text(Some(v)) {
            Some(t) => Some(Some(t)),
            None => None,
        },
        None => match as_members(lookup(record, "recovery"@)) {
            Some(m) => Some(filled_text(lookup(m, "processStartToken"@))),
            None => Some(None),
        },
    }
}

/// When and how the session exited: both fields or none, a text that holds
/// something and an integer of 32 bits.
pub open spec fn exit_fields(record: Members) -> Option<(Option<Seq<char>>, Option<i32>)> {
    match (lookup(record, "exitedAt"@), lookup(record, "exitCode"@)) {
        (None, None) => Some((None, None)),
        (Some(at), Some(code)) => if filled_text(Some(at)) is Some && small_int(code) is Some {
            Some((filled_text(Some(at)), Some(small_int(code)->0 as i32)))
        } else {
            None
        },
        _ => None,
    }
}

/// Whether every value is a string.
pub open spec fn all_strings(a: Seq<JsonView>) -> bool {
    forall|i: int| 0 <= i < a.len() ==> (#[trigger] a[i]) is Str
}

/// The last lines: absent, or an array of at most so many strings.
pub open spec fn lines_field(record: Members) -> Option<Option<Seq<Seq<char>>>> {
    match lookup(record, "lastLines"@) {
        None => Some(None),
        Some(JsonView::Array(a)) => if a.len() <= SESSION_EXIT_LAST_LINES_LIMIT && all_strings(
            a,
        ) {
            Some(Some(Seq::new(a.len(), |i: int| a[i]->Str_0)))
        } else {
            None
        },
        Some(_) => None,
    }
}

/// What a record says for evidence.
pub open spec fn evidence_in(record: Members) -> EvidenceReadView {
    match lookup(record, "generation"@) {
        None => EvidenceReadView::GenerationUnavailable,
        Some(g) => if filled_text(Some(g)) is None || pid_field(record) is None || token_field(
            record,
        ) is None || exit_fields(record) is None || lines_field(record) is None {
            EvidenceReadView::Invalid
        } else {
            let (exited_at, exit_code) = exit_fields(record)->0;
            EvidenceReadView::Valid(
                EvidenceView {
                    generation: filled_text(Some(g))->0,
                    daemon_pid: pid_field(record)->0,
                    daemon_start_token: token_field(record)->0,
                    exited_at,
                    exit_code,
                    last_lines: lines_field(record)->0,
                },
            )
        },
    }
}

/// What the file of a record says for evidence.
pub open spec fn evidence_of(file: MetadataFile) -> EvidenceReadView {
    match file {
        MetadataFile::Missing => EvidenceReadView::Missing,
        MetadataFile::Unreadable => EvidenceReadView::Invalid,
        MetadataFile::Content { size, bytes } => if size > METADATA_MAX_BYTES || bytes@.len()
            > METADATA_MAX_BYTES {
            EvidenceReadView::Invalid
        } else {
            match as_members(parsed_bytes(bytes@)) {
                Some(record) => evidence_in(record),
                None => EvidenceReadView::Invalid,
            }
        },
    }
}

fn take_filled(v: Option<&Json>) -> (r: Option<String>)
    ensures
        opt_view(r) == filled_text(
            match v {
                Some(j) => Some(j@),
                None => None,
            },
        ),
{
    match v {
        Some(Json::Str(s)) => {
            if s.as_str().is_empty() {
                None
            } else {
                Some(s.clone())
            }
        },
        _ => None,
    }
}

fn take_small_int(v: &Json) -> (r: Option<i32>)
    ensures
        match r {
            Some(n) => small_int(v@) == Some(n as int),
            None => small_int(v@) is None,
        },
{
    match v {
        Json::PosInt(n) => {
            if *n <= 0x7fff_ffff {
                Some(*n as i32)
            } else {
                None
            }
        },
        Json::NegInt(n) => {
            if *n >= -0x8000_0000 && *n <= 0x7fff_ffff {
                Some(*n as i32)
            } else {
                None
            }
        },
        _ => None,
    }
}

fn take_pid(record: &JsonMap) -> (r: Option<Option<i32>>)
    ensures
        r == pid_field(record@),
{
    match record.get("daemonPid") {
        None => Some(None),
        Some(v) => match take_small_int(v) {
            Some(n) => {
                if n > 0 {
                    Some(Some(n))
                } else {
                    None
                }
            },
            None => None,
        },
    }
}

fn take_token(record: &JsonMap) -> (r: Option<Option<String>>)
    ensures
        match r {
            Some(t) => token_field(record@) == Some(opt_view(t)),
            None => token_field(record@) is None,
        },
{
    match record.get("daemonStartToken") {
        Some(v) => match take_filled(Some(v)) {
            Some(t) => Some(Some(t)),
            None => None,
        },
        None => match record.get("recovery") {
            Some(Json::Object(m)) => Some(take_filled(m.get("processStartToken"))),
            _ => Some(None),
        },
    }
}

fn take_exit(record: &JsonMap) -> (r: Option<(Option<String>, Option<i32>)>)
    ensures
        match r {
            Some(e) => exit_fields(record@) == Some((opt_view(e.0), e.1)),
            None => exit_fields(record@) is None,
        },
{
    match (record.get("exitedAt"), record.get("exitCode")) {
        (None, None) => Some((None, None)),
        (Some(at), Some(code)) => match (take_filled(Some(at)), take_small_int(code)) {
            (Some(t), Some(n)) => Some((Some(t), Some(n))),
            _ => None,
        },
        _ => None,
    }
}

fn take_lines(record: &JsonMap) -> (r: Option<Option<Vec<String>>>)
    ensures
        match r {
            Some(Some(l)) => lines_field(record@) == Some(Some(views(l@))),
            Some(None) => lines_field(record@) == Some(None::<Seq<Seq<char>>>),
            None => lines_field(record@) is None,
        },
{
    match record.get("lastLines") {
        None => Some(None),
        Some(value) => match value {
            Json::Array(v) => {
                let ghost a = value@->Array_0;
                if v.len() > SESSION_EXIT_LAST_LINES_LIMIT {
                    return None;
                }
                let ghost want = Seq::new(a.len(), |i: int| a[i]->Str_0);
                let mut out: Vec<String> = Vec::new();
                let mut i: usize = 0;
                assert(views(out@) =~= want.take(0));
                while i < v.len()
                    invariant
                        i <= v@.len(),
                        lookup(record@, "lastLines"@) == Some(value@),
                        value is Array,
                        value->Array_0 == *v,
                        a == value@->Array_0,
                        a.len() == v@.len(),
                        want == Seq::new(a.len(), |i: int| a[i]->Str_0),
                        forall|j: int| 0 <= j < i ==> (#[trigger] a[j]) is Str,
                        views(out@) == want.take(i as int),
                    decreases v.len() - i,
                {
                    assert(a[i as int] == v@[i as int]@);
                    match &v[i] {
                        Json::Str(s) => {
                            let ghost before = out@;
                            out.push(s.clone());
                            proof {
                                lemma_views_push(before, out@.last());
                                assert(out@ =~= before.push(out@.last()));
                                assert(want.take(i + 1) =~= want.take(i as int).push(
                                    want[i as int],
                                ));
                            }
                        },
                        _ => {
                            assert(!(a[i as int] is Str));
                            return None;
                        },
                    }
                    i += 1;
                }
                assert(want.take(a.len() as int) =~= want);
                Some(Some(out))
            },
            _ => None,
        },
    }
}

fn evidence_of_record(record: &JsonMap) -> (r: EvidenceMetadataRead)
    ensures
        r@ == evidence_in(record@),
{
    let generation = match record.get("generation") {
        None => {
            return EvidenceMetadataRead::GenerationUnavailable;
        },
        Some(v) => match take_filled(Some(v)) {
            Some(g) => g,
            None => {
                return EvidenceMetadataRead::Invalid;
            },
        },
    };
    let daemon_pid = match take_pid(record) {
        Some(p) => p,
        None => {
            return EvidenceMetadataRead::Invalid;
        },
    };
    let daemon_start_token = match take_token(record) {
        Some(t) => t,
        None => {
            return EvidenceMetadataRead::Invalid;
        },
    };
    let (exited_at, exit_code) = match take_exit(record) {
        Some(e) => e,
        None => {
            return EvidenceMetadataRead::Invalid;
        },
    };
    let last_lines = match take_lines(record) {
        Some(l) => l,
        None => {
            return EvidenceMetadataRead::Invalid;
        },
    };
    EvidenceMetadataRead::Valid(
        EvidenceMetadata {
            generation,
            daemon_pid,
            daemon_start_token,
            exited_at,
            exit_code,
            last_lines,
        },
    )
}

/// Read the file of a record for evidence.
pub fn read_evidence_metadata(file: &MetadataFile) -> (r: EvidenceMetadataRead)
    ensures
        r@ == evidence_of(*file),
{
    match file {
        MetadataFile::Missing => EvidenceMetadataRead::Missing,
        MetadataFile::Unreadable => EvidenceMetadataRead::Invalid,
        MetadataFile::Content { size, bytes } => {
            if *size > METADATA_MAX_BYTES || bytes.len() as u64 > METADATA_MAX_BYTES {
                return EvidenceMetadataRead::Invalid;
            }
            match parse_json_bytes(bytes.as_slice()) {
                Some(Json::Object(record)) => evidence_of_record(&record),
                _ => EvidenceMetadataRead::Invalid,
            }
        },
    }
}

/// What was seen of a process.
#[derive(Debug, Clone, PartialEq, Eq)]
pub struct ProcessObservation {
    pub alive: bool,
    pub start_token: Option<String>,
}

/// Whether an observation proves the process that a token names.
pub open spec fn proves(token: Option<Seq<char>>, o: Option<ProcessObservation>) -> bool {
    match o {
        Some(p) => token is Some && p.alive && opt_view(p.start_token) == token,
        None => false,
    }
}

fn is_proved(token: &Option<String>, o: &Option<ProcessObservation>) -> (r: bool)
    ensures
        r == proves(opt_view(*token), *o),
{
    match o {
        Some(p) => match (token, &p.start_token) {
            (Some(t), Some(live)) => p.alive && str_eq(live.as_str(), t.as_str()),
            _ => false,
        },
        None => false,
    }
}

/// Does a generation still live? It does where the process of the pid file or
/// of the record is proved by the start token, or the socket answers.
pub fn generation_is_alive(
    metadata: &EvidenceMetadata,
    session_process: &Option<ProcessObservation>,
    daemon_process: &Option<ProcessObservation>,
    socket_answers: bool,
) -> (r: bool)
    ensures
        r == (proves(metadata@.daemon_start_token, *session_process) || proves(
            metadata@.daemon_start_token,
            *daemon_process,
        ) || socket_answers),
{
    is_proved(&metadata.daemon_start_token, session_process) || is_proved(
        &metadata.daemon_start_token,
        daemon_process,
    ) || socket_answers
}

/// Whether a snapshot holds what a record says.
pub open spec fn snapshot_of(s: SessionExitEvidence, name: Seq<char>, v: EvidenceView) -> bool {
    &&& s.name@ == name
    &&& s.generation@ == v.generation
    &&& s.status == (if v.exited_at is Some {
        SessionExitStatus::Exited
    } else {
        SessionExitStatus::Vanished
    })
    &&& s.exit_code == v.exit_code
    &&& s.stream == EvidenceStream::Combined
    &&& match v.last_lines {
        Some(l) => s.tail matches SessionExitEvidenceTail::Present { last_lines } && views(
            last_lines@,
        ) == l,
        None => s.tail is Unavailable,
    }
}

/// The evidence of a session that has ended. `name_valid` says whether the
/// name is one, `locked` whether the creation lock was taken, `read` what the
/// record said, and `alive` whether that generation lives.
pub fn get_session_exit_evidence(
    name: &str,
    name_valid: bool,
    locked: bool,
    read: EvidenceMetadataRead,
    alive: bool,
) -> (r: SessionExitEvidenceResult)
    ensures
        match r {
            SessionExitEvidenceResult::Unavailable { reason } => match reason {
                EvidenceUnavailableReason::InvalidMetadata => !name_valid || (locked
                    && read is Invalid),
                EvidenceUnavailableReason::Busy => name_valid && !locked,
                EvidenceUnavailableReason::Missing => name_valid && locked && read is Missing,
                EvidenceUnavailableReason::GenerationUnavailable => name_valid && locked
                    && read is GenerationUnavailable,
                EvidenceUnavailableReason::Running => name_valid && locked && read is Valid
                    && alive,
            },
            SessionExitEvidenceResult::Snapshot { snapshot } => name_valid && locked && !alive && (
            read matches EvidenceMetadataRead::Valid(m) && snapshot_of(snapshot, name@, m@)),
        },
{
    if !name_valid {
        return SessionExitEvidenceResult::Unavailable {
            reason: EvidenceUnavailableReason::InvalidMetadata,
        };
    }
    if !locked {
        return SessionExitEvidenceResult::Unavailable { reason: EvidenceUnavailableReason::Busy };
    }
    let metadata = match read {
        EvidenceMetadataRead::Valid(m) => m,
        EvidenceMetadataRead::Missing => {
            return SessionExitEvidenceResult::Unavailable {
                reason: EvidenceUnavailableReason::Missing,
            };
        },
        EvidenceMetadataRead::GenerationUnavailable => {
            return SessionExitEvidenceResult::Unavailable {
                reason: EvidenceUnavailableReason::GenerationUnavailable,
            };
        },
        EvidenceMetadataRead::Invalid => {
            return SessionExitEvidenceResult::Unavailable {
                reason: EvidenceUnavailableReason::InvalidMetadata,
            };
        },
    };
    if alive {
        return SessionExitEvidenceResult::Unavailable {
            reason: EvidenceUnavailableReason::Running,
        };
    }
    let exited = metadata.exited_at.is_some();
    SessionExitEvidenceResult::Snapshot {
        snapshot: SessionExitEvidence {
            name: name.to_owned(),
            generation: metadata.generation,
            status: if exited {
                SessionExitStatus::Exited
            } else {
                SessionExitStatus::Vanished
            },
            exit_code: metadata.exit_code,
            stream: EvidenceStream::Combined,
            tail: match metadata.last_lines {
                Some(last_lines) => SessionExitEvidenceTail::Present { last_lines },
                None => SessionExitEvidenceTail::Unavailable,
            },
        },
    }
}

/// Why a record does not let a generation be removed, if it does not.
pub open spec fn removal_refusal(
    read: EvidenceReadView,
    expected: Seq<char>,
) -> Option<RemoveSessionGenerationResult> {
    match read {
        EvidenceReadView::Missing => Some(RemoveSessionGenerationResult::Missing),
        EvidenceReadView::GenerationUnavailable => Some(
            RemoveSessionGenerationResult::GenerationMismatch,
        ),
        EvidenceReadView::Invalid => Some(RemoveSessionGenerationResult::InvalidMetadata),
        EvidenceReadView::Valid(m) => if m.generation != expected {
            Some(RemoveSessionGenerationResult::GenerationMismatch)
        } else {
            None
        },
    }
}

/// Computes `removal_refusal`.
pub fn check_removal(read: &EvidenceMetadataRead, expected_generation: &str) -> (r: Option<
    RemoveSessionGenerationResult,
>)
    ensures
        r == removal_refusal(read@, expected_generation@),
{
    match read {
        EvidenceMetadataRead::Missing => Some(RemoveSessionGenerationResult::Missing),
        EvidenceMetadataRead::GenerationUnavailable => Some(
            RemoveSessionGenerationResult::GenerationMismatch,
        ),
        EvidenceMetadataRead::Invalid => Some(RemoveSessionGenerationResult::InvalidMetadata),
        EvidenceMetadataRead::Valid(m) => {
            if str_eq(m.generation.as_str(), expected_generation) {
                None
            } else {
                Some(RemoveSessionGenerationResult::GenerationMismatch)
            }
        },
    }
}

/// What came of removing a generation, before anything is unlinked. The record
/// is read twice, once on either side of the question whether the generation
/// lives; `locked` says whether the event lock and then the creation lock
/// were taken.
pub fn remove_session_generation(
    expected_generation: &str,
    name_valid: bool,
    locked: bool,
    first: &EvidenceMetadataRead,
    alive: bool,
    second: &EvidenceMetadataRead,
) -> (r: RemoveSessionGenerationResult)
    ensures
        r == (if !name_valid {
            RemoveSessionGenerationResult::InvalidMetadata
        } else if !locked {
            RemoveSessionGenerationResult::Busy
        } else if removal_refusal(first@, expected_generation@) is Some {
            removal_refusal(first@, expected_generation@)->0
        } else if alive {
            RemoveSessionGenerationResult::NotTerminal
        } else if removal_refusal(second@, expected_generation@) is Some {
            removal_refusal(second@, expected_generation@)->0
        } else {
            RemoveSessionGenerationResult::Removed
        }),
{
    if !name_valid {
        return RemoveSessionGenerationResult::InvalidMetadata;
    }
    if !locked {
        return RemoveSessionGenerationResult::Busy;
    }
    if let Some(refusal) = check_removal(first, expected_generation) {
        return refusal;
    }
    if alive {
        return RemoveSessionGenerationResult::NotTerminal;
    }
    if let Some(refusal) = check_removal(second, expected_generation) {
        return refusal;
    }
    RemoveSessionGenerationResult::Removed
}

/// The files of a generation in the order of removal. The record comes last,
/// so that a failure before it preserves the generation for a safe retry.
pub open spec fn removal_order(root: Seq<char>, name: Seq<char>) -> Seq<Seq<char>> {
    seq![
        session_file(root, name, ".sock"@),
        session_file(root, name, ".pid"@),
        session_file(root, name, ".events.jsonl"@),
        session_file(under(root, ".recovery"@), name, ".revision.json"@),
        session_file(root, name, ".json"@),
    ]
}

/// Computes `removal_order`.
pub fn removal_files(root: &str, name: &str) -> (r: Vec<String>)
    ensures
        views(r@) == removal_order(root@, name@),
{
    let mut out: Vec<String> = Vec::new();
    out.push(socket_path(root, name));
    out.push(pid_path(root, name));
    out.push(events_path(root, name));
    out.push(recovery_revision_path(root, name));
    out.push(metadata_path(root, name));
    assert(views(out@) =~= removal_order(root@, name@));
    out
}

/// A removal only succeeds for the generation that was expected, seen twice,
/// and not alive in between.
pub proof fn law_removal_is_fenced(
    expected: Seq<char>,
    first: EvidenceReadView,
    second: EvidenceReadView,
)
    requires
        removal_refusal(first, expected) is None,
        removal_refusal(second, expected) is None,
    ensures
        first matches EvidenceReadView::Valid(a) && a.generation == expected,
        second matches EvidenceReadView::Valid(b) && b.generation == expected,
{
}

/// The record is removed after everything else.
pub proof fn law_record_is_removed_last(root: Seq<char>, name: Seq<char>)
    ensures
        removal_order(root, name).last() == session_file(root, name, ".json"@),
        removal_order(root, name).len() == 5,
{
}

/// The pid of the daemon in a record: it may be missing, and where it is there
/// it is a positive number of 32 bits.
pub proof fn law_pid_in_a_record(r: Members, n: int, v: JsonView)
    ensures
        lookup(r, "daemonPid"@) is None ==> pid_field(r) == Some(None::<i32>),
        lookup(r, "daemonPid"@) == Some(JsonView::Int(n)) && 0 < n <= i32::MAX ==> pid_field(r)
            == Some(Some(n as i32)),
        lookup(r, "daemonPid"@) == Some(JsonView::Int(n)) && (n <= 0 || n > i32::MAX)
            ==> pid_field(r) is None,
        lookup(r, "daemonPid"@) == Some(v) && !(v is Int) ==> pid_field(r) is None,
{
}

/// The start token in a record: the daemon's, a text that is not empty, or else
/// the process's in the recovery object, where that is one.
pub proof fn law_token_in_a_record(r: Members, m: Members, t: Seq<char>, v: JsonView)
    ensures
        lookup(r, "daemonStartToken"@) == Some(JsonView::Str(t)) && t.len() > 0 ==> token_field(r)
            == Some(Some(t)),
        lookup(r, "daemonStartToken"@) == Some(JsonView::Str(t)) && t.len() == 0 ==> token_field(r)
            is None,
        lookup(r, "daemonStartToken"@) == Some(v) && !(v is Str) ==> token_field(r) is None,
        lookup(r, "daemonStartToken"@) is None && lookup(r, "recovery"@) == Some(
            JsonView::Object(m),
        ) && lookup(m, "processStartToken"@) == Some(JsonView::Str(t)) && t.len() > 0
            ==> token_field(r) == Some(Some(t)),
        lookup(r, "daemonStartToken"@) is None && lookup(r, "recovery"@) == Some(
            JsonView::Object(m),
        ) && !(lookup(m, "processStartToken"@) matches Some(JsonView::Str(_))) ==> token_field(r)
            == Some(None::<Seq<char>>),
        lookup(r, "daemonStartToken"@) is None && !(lookup(
            r,
            "recovery"@,
        ) matches Some(JsonView::Object(_))) ==> token_field(r) == Some(None::<Seq<char>>),
{
}

/// The exit in a record: both its time and its code, or neither.
pub proof fn law_exit_in_a_record(r: Members, at: Seq<char>, n: int)
    ensures
        lookup(r, "exitedAt"@) is None && lookup(r, "exitCode"@) is None ==> exit_fields(r) == Some(
            (None::<Seq<char>>, None::<i32>),
        ),
        lookup(r, "exitedAt"@) is None && lookup(r, "exitCode"@) is Some ==> exit_fields(r) is None,
        lookup(r, "exitedAt"@) is Some && lookup(r, "exitCode"@) is None ==> exit_fields(r) is None,
        lookup(r, "exitedAt"@) == Some(JsonView::Str(at)) && at.len() > 0 && lookup(r, "exitCode"@)
            == Some(JsonView::Int(n)) && i32::MIN <= n <= i32::MAX ==> exit_fields(r) == Some(
            (Some(at), Some(n as i32)),
        ),
        lookup(r, "exitedAt"@) == Some(JsonView::Str(at)) && at.len() == 0 ==> exit_fields(r)
            is None,
        lookup(r, "exitCode"@) == Some(JsonView::Int(n)) && (n < i32::MIN || n > i32::MAX)
            ==> exit_fields(r) is None,
        lookup(r, "exitCode"@) is Some && !(lookup(r, "exitCode"@)->0 is Int) ==> exit_fields(r)
            is None,
        lookup(r, "exitedAt"@) is Some && !(lookup(r, "exitedAt"@)->0 is Str) ==> exit_fields(r)
            is None,
{
}

/// The last lines in a record: at most 200 texts, kept as they are and in
/// order.
pub proof fn law_lines_in_a_record(r: Members, a: Seq<JsonView>, i: int)
    ensures
        lookup(r, "lastLines"@) is None ==> lines_field(r) == Some(None::<Seq<Seq<char>>>),
        lookup(r, "lastLines"@) is Some && !(lookup(r, "lastLines"@)->0 is Array) ==> lines_field(r)
            is None,
        lookup(r, "lastLines"@) == Some(JsonView::Array(a)) ==> {
            &&& lines_field(r) is None <==> a.len() > 200 || exists|j: int|
                0 <= j < a.len() && !((#[trigger] a[j]) is Str)
            &&& lines_field(r) is Some ==> lines_field(r)->0 is Some && lines_field(r)->0->0.len()
                == a.len()
            &&& lines_field(r) is Some && 0 <= i < a.len() ==> a[i] == JsonView::Str(
                lines_field(r)->0->0[i],
            )
        },
{
    if lookup(r, "lastLines"@) == Some(JsonView::Array(a)) {
        assert(all_strings(a) <==> !exists|j: int| 0 <= j < a.len() && !((#[trigger] a[j]) is Str));
        if lines_field(r) is Some && 0 <= i < a.len() {
            assert(a[i] is Str);
        }
    }
}

/// What a record is as evidence: it needs a generation that is a text with
/// something in it, and no field that is not what it should be; what it says
/// is what its fields say.
pub proof fn law_evidence_of_a_record(r: Members, g: Seq<char>)
    ensures
        lookup(r, "generation"@) is None ==> evidence_in(r)
            == EvidenceReadView::GenerationUnavailable,
        lookup(r, "generation"@) is Some && !(lookup(r, "generation"@)->0 is Str) ==> evidence_in(r)
            == EvidenceReadView::Invalid,
        lookup(r, "generation"@) == Some(JsonView::Str(g)) ==> {
            &&& evidence_in(r) == EvidenceReadView::Invalid <==> g.len() == 0 || pid_field(r)
                is None || token_field(r) is None || exit_fields(r) is None || lines_field(r)
                is None
            &&& evidence_in(r) != EvidenceReadView::Invalid ==> (evidence_in(
                r,
            ) matches EvidenceReadView::Valid(v) && v.generation == g && Some(v.daemon_pid)
                == pid_field(r) && Some(v.daemon_start_token) == token_field(r) && Some(
                (v.exited_at, v.exit_code),
            ) == exit_fields(r) && Some(v.last_lines) == lines_field(r))
        },
{
}

/// What a file is as evidence: at most 1 MiB of JSON that is an object.
pub proof fn law_evidence_of_a_file(size: u64, bytes: Vec<u8>)
    ensures
        evidence_of(MetadataFile::Missing) == EvidenceReadView::Missing,
        evidence_of(MetadataFile::Unreadable) == EvidenceReadView::Invalid,
        size > 1024 * 1024 || bytes@.len() > 1024 * 1024 ==> evidence_of(
            MetadataFile::Content { size, bytes },
        ) == EvidenceReadView::Invalid,
        size <= 1024 * 1024 && bytes@.len() <= 1024 * 1024 ==> {
            &&& (parsed_bytes(bytes@) matches Some(JsonView::Object(r)) ==> evidence_of(
                MetadataFile::Content { size, bytes },
            ) == evidence_in(r))
            &&& (!(parsed_bytes(bytes@) matches Some(JsonView::Object(_))) ==> evidence_of(
                MetadataFile::Content { size, bytes },
            ) == EvidenceReadView::Invalid)
        },
{
}

/// A process proves the generation when it runs and has the token that is
/// recorded; without a token nothing is proved.
pub proof fn law_proof_of_a_generation(t: Option<Seq<char>>, p: ProcessObservation)
    ensures
        !proves(t, None),
        !proves(None, Some(p)),
        !p.alive ==> !proves(t, Some(p)),
        p.start_token is None ==> !proves(t, Some(p)),
        p.alive && p.start_token is Some ==> (proves(t, Some(p)) <==> t == Some(
            p.start_token->0@,
        )),
{
}

/// What a snapshot says of the evidence: its name, generation and code, whether
/// it exited or vanished, and the lines where there are any.
pub proof fn law_snapshot_of_the_evidence(s: SessionExitEvidence, name: Seq<char>, v: EvidenceView)
    ensures
        snapshot_of(s, name, v) ==> {
            &&& s.name@ == name && s.generation@ == v.generation && s.exit_code == v.exit_code
            &&& s.status == SessionExitStatus::Exited <==> v.exited_at is Some
            &&& s.status == SessionExitStatus::Vanished <==> v.exited_at is None
            &&& v.last_lines is None <==> s.tail == SessionExitEvidenceTail::Unavailable
            &&& (s.tail matches SessionExitEvidenceTail::Present { last_lines } ==> v.last_lines
                == Some(views(last_lines@)))
        },
{
}

/// Why a generation is not removed.
pub proof fn law_refused_removals(expected: Seq<char>, v: EvidenceView)
    ensures
        removal_refusal(EvidenceReadView::Missing, expected) == Some(
            RemoveSessionGenerationResult::Missing,
        ),
        removal_refusal(EvidenceReadView::GenerationUnavailable, expected) == Some(
            RemoveSessionGenerationResult::GenerationMismatch,
        ),
        removal_refusal(EvidenceReadView::Invalid, expected) == Some(
            RemoveSessionGenerationResult::InvalidMetadata,
        ),
        v.generation != expected ==> removal_refusal(EvidenceReadView::Valid(v), expected) == Some(
            RemoveSessionGenerationResult::GenerationMismatch,
        ),
        v.generation == expected ==> removal_refusal(EvidenceReadView::Valid(v), expected) is None,
{
}

/// The files of a generation go in this order, the record last.
pub proof fn law_order_of_removal(root: Seq<char>, name: Seq<char>)
    ensures
        removal_order(root, name)[0] == session_file(root, name, ".sock"@),
        removal_order(root, name)[1] == session_file(root, name, ".pid"@),
        removal_order(root, name)[2] == session_file(root, name, ".events.jsonl"@),
        removal_order(root, name)[3] == session_file(
            under(root, ".recovery"@),
            name,
            ".revision.json"@,
        ),
        removal_order(root, name)[4] == session_file(root, name, ".json"@),
{
}

/// Two pieces of evidence with the same content are the same in every field,
/// and a reading is what it says.
pub proof fn law_evidence_is_told_apart(a: EvidenceMetadata, b: EvidenceMetadata)
    ensures
        a@ == b@ ==> a.generation@ == b.generation@ && a.daemon_pid == b.daemon_pid && opt_view(
            a.daemon_start_token,
        ) == opt_view(b.daemon_start_token) && opt_view(a.exited_at) == opt_view(b.exited_at)
            && a.exit_code == b.exit_code && (a.last_lines is Some <==> b.last_lines is Some) && (
        a.last_lines is Some ==> views(a.last_lines->0@) == views(b.last_lines->0@)),
        EvidenceMetadataRead::Valid(a)@ == EvidenceReadView::Valid(a@),
        EvidenceMetadataRead::Missing@ == EvidenceReadView::Missing,
        EvidenceMetadataRead::GenerationUnavailable@ == EvidenceReadView::GenerationUnavailable,
        EvidenceMetadataRead::Invalid@ == EvidenceReadView::Invalid,
{
}

} // verus!
