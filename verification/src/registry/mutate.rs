//! Whole-record metadata mutation under the creation lock, and the
//! presentation patches built on it, each with the event that reports it.

use super::lock::{event_busy_message, event_busy_text, metadata_busy_message, metadata_busy_text};
use super::metadata::{
    apply_metadata_diff, patched, record_members, MetaView, Pairs, SessionMetadata,
};
use super::names::{display_name_error, validate_display_name};
use crate::events::{
    nullable, opt_changes, opt_opt_view, plain_event, with_field, Event,
    EventRecord, MetadataChangeSnapshot,
};
use crate::json::{same_members, Json, JsonMap, JsonView, Members};
use crate::maps::{
    changes, changes_at, changes_insert, changes_len, changes_new, entries, tags_at, tags_clone, tags_get, tags_insert, tags_len, tags_new, tags_remove,
    value_opt, TagChanges, TagMap,
};
use crate::pairs::{
    distinct_keys, has_key, key_index, law_put_then_lookup, law_without_then_lookup,
    lemma_key_found, lemma_key_index, lookup, put, without,
};
use crate::registry::metadata::pairs_json;
use crate::text::{opt_view, sort_strings, sorted, str_eq, views, lemma_views_push};
use vstd::prelude::*;

verus! {

/// Compare-and-swap guards of a mutation.
#[derive(Debug, Clone)]
pub struct MutateOptions {
    /// Refuse unless the record's `generation` equals this.
    pub expected_generation: Option<String>,
    /// Refuse unless the record still matches this observation: the same
    /// `generation`, or, for records without one, the same content.
    pub expected_metadata: Option<SessionMetadata>,
}

impl Default for MutateOptions {
    fn default() -> (r: MutateOptions)
        ensures
            r.expected_generation is None,
            r.expected_metadata is None,
    {
        MutateOptions { expected_generation: None, expected_metadata: None }
    }
}

/// The outcome of a mutation.
#[derive(Debug, Clone, PartialEq)]
pub enum MutateStatus {
    /// The lock is held by a live process.
    Busy,
    /// There is no readable record.
    Missing,
    /// The record no longer matches what was expected.
    GenerationMismatch,
    /// The record changed on disk while the mutation ran.
    Stale,
    /// The mutation declined; nothing was written.
    Unchanged(SessionMetadata),
    /// The record was rewritten.
    Changed(SessionMetadata),
}

impl MutateStatus {
    /// The name of the status.
    pub fn as_str(&self) -> (r: &'static str)
        ensures
            r@ == (match self {
                MutateStatus::Busy => "busy"@,
                MutateStatus::Missing => "missing"@,
                MutateStatus::GenerationMismatch => "generation-mismatch"@,
                MutateStatus::Stale => "stale"@,
                MutateStatus::Unchanged(_) => "unchanged"@,
                MutateStatus::Changed(_) => "changed"@,
            }),
    {
        match self {
            MutateStatus::Busy => "busy",
            MutateStatus::Missing => "missing",
            MutateStatus::GenerationMismatch => "generation-mismatch",
            MutateStatus::Stale => "stale",
            MutateStatus::Unchanged(_) => "unchanged",
            MutateStatus::Changed(_) => "changed",
        }
    }
}

/// Whether a record still belongs to an observation.
pub open spec fn matches_observation(observed: MetaView, current: MetaView) -> bool {
    if observed.generation is Some || current.generation is Some {
        observed.generation == current.generation
    } else {
        same_members(record_members(observed), record_members(current))
    }
}

/// Whether two optional texts are equal.
fn same_text(a: &Option<String>, b: &Option<String>) -> (r: bool)
    ensures
        r == (opt_view(*a) == opt_view(*b)),
{
    match (a, b) {
        (Some(x), Some(y)) => str_eq(x.as_str(), y.as_str()),
        (None, None) => true,
        _ => false,
    }
}

/// Does the current record still belong to the observation?
pub fn metadata_matches_observation(observed: &SessionMetadata, current: &SessionMetadata) -> (r:
    bool)
    ensures
        r == matches_observation(observed@, current@),
{
    if observed.generation.is_some() || current.generation.is_some() {
        return same_text(&observed.generation, &current.generation);
    }
    let a = observed.to_map();
    let b = current.to_map();
    a.same_as(&b)
}

/// Whether the guards of a mutation hold of a record.
pub open spec fn guarded(options: MutateOptions, current: MetaView) -> bool {
    &&& match options.expected_metadata {
        Some(expected) => matches_observation(expected@, current),
        None => true,
    }
    &&& match options.expected_generation {
        Some(expected) => current.generation == Some(expected@),
        None => true,
    }
}

/// Do the guards hold of the record?
pub fn guards_hold(options: &MutateOptions, current: &SessionMetadata) -> (r: bool)
    ensures
        r == guarded(*options, current@),
{
    if let Some(expected) = &options.expected_metadata {
        if !metadata_matches_observation(expected, current) {
            return false;
        }
    }
    if let Some(expected) = &options.expected_generation {
        return match &current.generation {
            Some(g) => str_eq(g.as_str(), expected.as_str()),
            None => false,
        };
    }
    true
}

/// The first half of a mutation: the record must be locked and readable, and
/// the guards must hold of it; then `mutate` is run on a copy. The result is
/// the record as it is to be, or why nothing is to be written.
pub fn mutate_metadata_under_lock<F: FnOnce(SessionMetadata) -> (SessionMetadata, bool)>(
    locked: bool,
    before: Option<&SessionMetadata>,
    mutate: F,
    options: &MutateOptions,
) -> (r: Result<SessionMetadata, MutateStatus>)
    requires
        before matches Some(b) ==> forall|m: SessionMetadata|
            m@ == b@ ==> call_requires(mutate, (m,)),
    ensures
        !locked ==> r == Err::<SessionMetadata, MutateStatus>(MutateStatus::Busy),
        locked && before is None ==> r == Err::<SessionMetadata, MutateStatus>(
            MutateStatus::Missing,
        ),
        locked && before is Some && !guarded(*options, before->0@) ==> r == Err::<
            SessionMetadata,
            MutateStatus,
        >(MutateStatus::GenerationMismatch),
        locked && before is Some && guarded(*options, before->0@) ==> exists|
            m: SessionMetadata,
            out: (SessionMetadata, bool),
        |
            m@ == before->0@ && #[trigger] call_ensures(mutate, (m,), out) && (match r {
                Ok(after) => out.1 && after == out.0,
                Err(MutateStatus::Unchanged(kept)) => !out.1 && kept@ == before->0@,
                Err(_) => false,
            }),
{
    if !locked {
        return Err(MutateStatus::Busy);
    }
    let before = match before {
        Some(b) => b,
        None => {
            return Err(MutateStatus::Missing);
        },
    };
    if !guards_hold(options, before) {
        return Err(MutateStatus::GenerationMismatch);
    }
    let copy = before.clone();
    let out = mutate(copy);
    let (after, go) = out;
    if go {
        Ok(after)
    } else {
        Err(MutateStatus::Unchanged(before.clone()))
    }
}

/// The second half of a mutation: the object to publish, unless the file no
/// longer holds the object that the mutation started from.
pub fn publish_mutation(
    raw: &JsonMap,
    latest: Option<&JsonMap>,
    before: &SessionMetadata,
    after: &SessionMetadata,
) -> (r: Result<JsonMap, MutateStatus>)
    ensures
        match r {
            Ok(m) => latest is Some && same_members(latest->0@, raw@) && m@ == patched(
                raw@,
                before@,
                after@,
            ),
            Err(s) => s is Stale && (latest matches Some(l) ==> !same_members(l@, raw@)),
        },
{
    match latest {
        Some(l) => {
            if !l.same_as(raw) {
                return Err(MutateStatus::Stale);
            }
        },
        None => {
            return Err(MutateStatus::Stale);
        },
    }
    let mut published = raw.copy();
    apply_metadata_diff(before, after, &mut published);
    Ok(published)
}

/// The end of a mutation: a write that failed leaves the record stale; else
/// the record is what the published object reads as.
pub fn finish_mutation(
    written: bool,
    published: Option<SessionMetadata>,
    after: SessionMetadata,
) -> (r: MutateStatus)
    ensures
        r == (if !written {
            MutateStatus::Stale
        } else {
            match published {
                Some(p) => MutateStatus::Changed(p),
                None => MutateStatus::Changed(after),
            }
        }),
{
    if !written {
        return MutateStatus::Stale;
    }
    match published {
        Some(p) => MutateStatus::Changed(p),
        None => MutateStatus::Changed(after),
    }
}

// ---- presentation patches ------------------------------------------------

/// Changes by key.
pub type Changes = Seq<(Seq<char>, Option<Seq<char>>)>;

/// A presentation patch: a display name (nothing inside clears it) and
/// per-key tag updates (nothing inside removes the tag).
#[derive(Debug, PartialEq, Clone)]
pub struct MetadataPatch {
    pub display_name: Option<Option<String>>,
    pub tags: Option<TagChanges>,
}

/// The mathematical content of a `MetadataPatch`.
#[verifier::ext_equal]
pub struct PatchView {
    pub display_name: Option<Option<Seq<char>>>,
    pub tags: Option<Changes>,
}

impl View for MetadataPatch {
    type V = PatchView;

    open spec fn view(&self) -> PatchView {
        PatchView {
            display_name: opt_opt_view(self.display_name),
            tags: opt_changes(self.tags),
        }
    }
}

impl Default for MetadataPatch {
    fn default() -> (r: MetadataPatch)
        ensures
            r@ == (PatchView { display_name: None, tags: None }),
    {
        MetadataPatch { display_name: None, tags: None }
    }
}

/// Whether a key of a list is empty.
pub open spec fn has_empty_key<V>(m: Seq<(Seq<char>, V)>) -> bool {
    exists|i: int| 0 <= i < m.len() && (#[trigger] m[i]).0.len() == 0
}

/// Why a patch is refused, or `None` where it is valid.
pub open spec fn patch_error(p: PatchView) -> Option<Seq<char>> {
    match p.display_name {
        Some(Some(name)) if display_name_error(name) is Some => Some(
            "Invalid displayName: "@ + display_name_error(name)->0,
        ),
        _ => match p.tags {
            Some(tags) if has_empty_key(tags) => Some(
                "Metadata patch tag keys must be non-empty."@,
            ),
            _ => None,
        },
    }
}

/// The first field of an object that no patch has.
pub open spec fn unknown_field(m: Members) -> Option<Seq<char>>
    decreases m.len(),
{
    if m.len() == 0 {
        None
    } else {
        match unknown_field(m.drop_last()) {
            Some(k) => Some(k),
            None => if m.last().0 == "displayName"@ || m.last().0 == "tags"@ {
                None
            } else {
                Some(m.last().0)
            },
        }
    }
}

/// The display name that a patch asks for.
pub open spec fn name_in(m: Members) -> Result<Option<Option<Seq<char>>>, Seq<char>> {
    match lookup(m, "displayName"@) {
        None => Ok(None),
        Some(JsonView::Null) => Ok(Some(None)),
        Some(JsonView::Str(s)) => Ok(Some(Some(s))),
        Some(_) => Err("Metadata patch displayName must be a string or null."@),
    }
}

/// The tag changes that the members of an object ask for.
pub open spec fn changes_in(m: Members) -> Result<Changes, Seq<char>>
    decreases m.len(),
{
    if m.len() == 0 {
        Ok(Seq::empty())
    } else {
        match changes_in(m.drop_last()) {
            Err(e) => Err(e),
            Ok(before) => if m.last().0.len() == 0 {
                Err("Metadata patch tag keys must be non-empty."@)
            } else {
                match m.last().1 {
                    JsonView::Null => Ok(put(before, m.last().0, None)),
                    JsonView::Str(s) => Ok(put(before, m.last().0, Some(s))),
                    _ => Err(
                        "Metadata patch tag values must be strings or null (invalid key: \""@
                            + m.last().0 + "\")."@,
                    ),
                }
            },
        }
    }
}

/// The tags that a patch asks for.
pub open spec fn tags_in(m: Members) -> Result<Option<Changes>, Seq<char>> {
    match lookup(m, "tags"@) {
        None => Ok(None),
        Some(JsonView::Object(t)) => match changes_in(t) {
            Ok(c) => Ok(Some(c)),
            Err(e) => Err(e),
        },
        Some(_) => Err("Metadata patch tags must be a JSON object."@),
    }
}

/// The patch that a JSON value asks for, or why it is refused.
pub open spec fn patch_in(v: JsonView) -> Result<PatchView, Seq<char>> {
    match v {
        JsonView::Object(m) => match unknown_field(m) {
            Some(k) => Err(
                "Metadata patch has unknown field \""@ + k
                    + "\". Allowed fields: displayName, tags."@,
            ),
            None => match (name_in(m), tags_in(m)) {
                (Err(e), _) => Err(e),
                (_, Err(e)) => Err(e),
                (Ok(display_name), Ok(tags)) => {
                    let p = PatchView { display_name, tags };
                    match patch_error(p) {
                        Some(e) => Err(e),
                        None => Ok(p),
                    }
                },
            },
        },
        _ => Err("Metadata patch must be a JSON object."@),
    }
}

fn find_unknown(obj: &JsonMap) -> (r: Option<String>)
    ensures
        opt_view(r) == unknown_field(obj@),
{
    let n = obj.len();
    let mut i: usize = 0;
    assert(obj@.take(0) =~= Members::empty());
    while i < n
        invariant
            i <= n,
            n == obj@.len(),
            unknown_field(obj@.take(i as int)) is None,
        decreases n - i,
    {
        assert(obj@.take(i + 1).drop_last() =~= obj@.take(i as int));
        let key = obj.key_at(i);
        if !str_eq(key, "displayName") && !str_eq(key, "tags") {
            proof {
                lemma_unknown_field(obj@, i + 1);
            }
            return Some(key.to_owned());
        }
        i += 1;
    }
    assert(obj@.take(n as int) =~= obj@);
    None
}

/// The first unknown field of a beginning is that of the whole.
proof fn lemma_unknown_field(m: Members, k: int)
    requires
        0 <= k <= m.len(),
        unknown_field(m.take(k)) is Some,
    ensures
        unknown_field(m) == unknown_field(m.take(k)),
    decreases m.len(),
{
    if k == m.len() {
        assert(m.take(k) =~= m);
    } else {
        assert(m.drop_last().take(k) =~= m.take(k));
        lemma_unknown_field(m.drop_last(), k);
    }
}

/// An error of a beginning is that of the whole.
proof fn lemma_changes_error(m: Members, k: int)
    requires
        0 <= k <= m.len(),
        changes_in(m.take(k)) is Err,
    ensures
        changes_in(m) == changes_in(m.take(k)),
    decreases m.len(),
{
    if k == m.len() {
        assert(m.take(k) =~= m);
    } else {
        assert(m.drop_last().take(k) =~= m.take(k));
        lemma_changes_error(m.drop_last(), k);
    }
}

fn read_changes(tags: &JsonMap) -> (r: Result<TagChanges, String>)
    ensures
        match r {
            Ok(c) => changes_in(tags@) == Ok::<Changes, Seq<char>>(changes(c)),
            Err(e) => changes_in(tags@) == Err::<Changes, Seq<char>>(e@),
        },
{
    let n = tags.len();
    let mut out = changes_new();
    let mut i: usize = 0;
    assert(tags@.take(0) =~= Members::empty());
    while i < n
        invariant
            i <= n,
            n == tags@.len(),
            changes_in(tags@.take(i as int)) == Ok::<Changes, Seq<char>>(changes(out)),
        decreases n - i,
    {
        assert(tags@.take(i + 1).drop_last() =~= tags@.take(i as int));
        let key = tags.key_at(i);
        if key.is_empty() {
            proof {
                lemma_changes_error(tags@, i + 1);
            }
            return Err("Metadata patch tag keys must be non-empty.".to_owned());
        }
        match tags.value_at(i) {
            Json::Null => changes_insert(&mut out, key.to_owned(), None),
            Json::Str(s) => changes_insert(&mut out, key.to_owned(), Some(s.clone())),
            _ => {
                let mut m =
                    "Metadata patch tag values must be strings or null (invalid key: \"".to_owned();
                m.append(key);
                m.append("\").");
                proof {
                    lemma_changes_error(tags@, i + 1);
                }
                return Err(m);
            },
        }
        i += 1;
    }
    assert(tags@.take(n as int) =~= tags@);
    Ok(out)
}

fn empty_change_key(m: &TagChanges) -> (r: bool)
    ensures
        r == has_empty_key(changes(*m)),
{
    let n = changes_len(m);
    let mut i: usize = 0;
    while i < n
        invariant
            i <= n,
            n == changes(*m).len(),
            forall|j: int| 0 <= j < i ==> (#[trigger] changes(*m)[j]).0.len() > 0,
        decreases n - i,
    {
        match changes_at(m, i) {
            Some((k, _)) => {
                if k.as_str().is_empty() {
                    assert(changes(*m)[i as int].0.len() == 0);
                    return true;
                }
            },
            None => {},
        }
        i += 1;
    }
    false
}

fn empty_tag_key(m: &TagMap) -> (r: bool)
    ensures
        r == has_empty_key(entries(*m)),
{
    let n = tags_len(m);
    let mut i: usize = 0;
    while i < n
        invariant
            i <= n,
            n == entries(*m).len(),
            forall|j: int| 0 <= j < i ==> (#[trigger] entries(*m)[j]).0.len() > 0,
        decreases n - i,
    {
        match tags_at(m, i) {
            Some((k, _)) => {
                if k.as_str().is_empty() {
                    assert(entries(*m)[i as int].0.len() == 0);
                    return true;
                }
            },
            None => {},
        }
        i += 1;
    }
    false
}

impl MetadataPatch {
    /// Read and validate the JSON object of a patch.
    pub fn from_json(value: &Json) -> (r: Result<MetadataPatch, String>)
        ensures
            match r {
                Ok(p) => patch_in(value@) == Ok::<PatchView, Seq<char>>(p@),
                Err(e) => patch_in(value@) == Err::<PatchView, Seq<char>>(e@),
            },
    {
        let obj = match value {
            Json::Object(m) => m,
            _ => {
                return Err("Metadata patch must be a JSON object.".to_owned());
            },
        };
        if let Some(key) = find_unknown(obj) {
            let mut m = "Metadata patch has unknown field \"".to_owned();
            m.append(key.as_str());
            m.append("\". Allowed fields: displayName, tags.");
            return Err(m);
        }
        let display_name = match obj.get("displayName") {
            None => None,
            Some(Json::Null) => Some(None),
            Some(Json::Str(s)) => Some(Some(s.clone())),
            Some(_) => {
                return Err("Metadata patch displayName must be a string or null.".to_owned());
            },
        };
        let tags = match obj.get("tags") {
            None => None,
            Some(Json::Object(t)) => match read_changes(t) {
                Ok(c) => Some(c),
                Err(e) => {
                    return Err(e);
                },
            },
            Some(_) => {
                return Err("Metadata patch tags must be a JSON object.".to_owned());
            },
        };
        let patch = MetadataPatch { display_name, tags };
        match patch.validate() {
            Ok(()) => Ok(patch),
            Err(e) => Err(e),
        }
    }

    /// Validate a patch: the rules for display names, and no empty tag key.
    pub fn validate(&self) -> (r: Result<(), String>)
        ensures
            match r {
                Ok(()) => patch_error(self@) is None,
                Err(e) => patch_error(self@) == Some(e@),
            },
    {
        if let Some(Some(name)) = &self.display_name {
            match validate_display_name(name.as_str()) {
                Ok(()) => {},
                Err(e) => {
                    let mut m = "Invalid displayName: ".to_owned();
                    m.append(e.as_str());
                    return Err(m);
                },
            }
        }
        if let Some(tags) = &self.tags {
            if empty_change_key(tags) {
                return Err("Metadata patch tag keys must be non-empty.".to_owned());
            }
        }
        Ok(())
    }
}

/// The tags of a record.
pub open spec fn tags_of(m: MetaView) -> Pairs {
    match m.tags {
        Some(t) => t,
        None => Seq::empty(),
    }
}

/// The keys that changes touch effectively, in their order.
pub open spec fn touched(previous: Pairs, c: Changes) -> Seq<Seq<char>>
    decreases c.len(),
{
    if c.len() == 0 {
        Seq::empty()
    } else if lookup(previous, c.last().0) == c.last().1 {
        touched(previous, c.drop_last())
    } else {
        touched(previous, c.drop_last()).push(c.last().0)
    }
}

/// The tags after changes: what a change asks for and the tags have already
/// is left alone.
pub open spec fn retagged(previous: Pairs, c: Changes) -> Pairs
    decreases c.len(),
{
    if c.len() == 0 {
        previous
    } else {
        let before = retagged(previous, c.drop_last());
        if lookup(previous, c.last().0) == c.last().1 {
            before
        } else {
            match c.last().1 {
                Some(v) => put(before, c.last().0, v),
                None => without(before, c.last().0),
            }
        }
    }
}

/// The values of keys, or that they are absent.
pub open spec fn snapshot(keys: Seq<Seq<char>>, m: Pairs) -> Changes
    decreases keys.len(),
{
    if keys.len() == 0 {
        Seq::empty()
    } else {
        put(snapshot(keys.drop_last(), m), keys.last(), lookup(m, keys.last()))
    }
}

/// Whether a patch changes the display name.
pub open spec fn renames(p: PatchView, m: MetaView) -> bool {
    p.display_name is Some && p.display_name->0 != m.display_name
}

/// The tag changes of a patch.
pub open spec fn changes_of(p: PatchView) -> Changes {
    match p.tags {
        Some(c) => c,
        None => Seq::empty(),
    }
}

/// Whether a patch changes the tags.
pub open spec fn retags(p: PatchView, m: MetaView) -> bool {
    touched(tags_of(m), changes_of(p)).len() > 0
}

/// The record that a patch makes.
pub open spec fn patched_record(p: PatchView, m: MetaView) -> MetaView {
    let next = retagged(tags_of(m), changes_of(p));
    MetaView {
        display_name: if renames(p, m) {
            p.display_name->0
        } else {
            m.display_name
        },
        tags: if !retags(p, m) {
            m.tags
        } else if next.len() == 0 {
            None
        } else {
            Some(next)
        },
        ..m
    }
}

/// Why a patched record may not be published.
pub open spec fn record_error(m: MetaView) -> Option<Seq<char>> {
    match m.display_name {
        Some(name) if display_name_error(name) is Some => display_name_error(name),
        _ => if has_empty_key(tags_of(m)) {
            Some("Resulting metadata contains an empty tag key."@)
        } else {
            None
        },
    }
}

/// Whether a patch changes anything.
pub open spec fn effective(p: PatchView, m: MetaView) -> bool {
    renames(p, m) || retags(p, m)
}

/// What a patch does to a record.
pub struct PatchOutcome {
    /// The record after the patch.
    pub metadata: SessionMetadata,
    /// Whether the record is to be published.
    pub publish: bool,
    /// Why the patched record may not be published.
    pub error: Option<String>,
    pub previous_tags: TagMap,
    pub next_tags: TagMap,
    pub previous: MetadataChangeSnapshot,
    pub value: MetadataChangeSnapshot,
}

impl PatchOutcome {
    /// The outcome is that of `p` on `m`.
    pub open spec fn is_of(&self, p: PatchView, m: MetaView) -> bool {
        let keys = sorted(touched(tags_of(m), changes_of(p)));
        let next = retagged(tags_of(m), changes_of(p));
        &&& self.metadata@ == patched_record(p, m)
        &&& self.publish == (effective(p, m) && record_error(patched_record(p, m)) is None)
        &&& opt_view(self.error) == (if effective(p, m) {
            record_error(patched_record(p, m))
        } else {
            None
        })
        &&& entries(self.previous_tags) == tags_of(m)
        &&& entries(self.next_tags) == next
        &&& opt_opt_view(self.previous.display_name) == (if renames(p, m) {
            Some(m.display_name)
        } else {
            None
        })
        &&& opt_opt_view(self.value.display_name) == (if renames(p, m) {
            p.display_name
        } else {
            None
        })
        &&& opt_changes(self.previous.tags) == (if retags(p, m) {
            Some(snapshot(keys, tags_of(m)))
        } else {
            None
        })
        &&& opt_changes(self.value.tags) == (if retags(p, m) {
            Some(snapshot(keys, next))
        } else {
            None
        })
    }
}

fn same_value(a: Option<&String>, b: &Option<String>) -> (r: bool)
    ensures
        r == ((match a {
            Some(x) => Some(x@),
            None => None,
        }) == value_opt(*b)),
{
    match (a, b) {
        (Some(x), Some(y)) => str_eq(x.as_str(), y.as_str()),
        (None, None) => true,
        _ => false,
    }
}

/// Apply changes to a copy of the tags; the keys that were touched, in order
/// of the changes.
fn retag(previous: &TagMap, c: &TagChanges) -> (r: (TagMap, Vec<String>))
    ensures
        entries(r.0) == retagged(entries(*previous), changes(*c)),
        views(r.1@) == touched(entries(*previous), changes(*c)),
{
    let ghost prev = entries(*previous);
    let ghost all = changes(*c);
    let mut next = tags_clone(previous);
    let mut keys: Vec<String> = Vec::new();
    let n = changes_len(c);
    let mut i: usize = 0;
    assert(all.take(0) =~= Changes::empty());
    assert(views(keys@) =~= Seq::<Seq<char>>::empty());
    while i < n
        invariant
            i <= n,
            n == all.len(),
            all == changes(*c),
            prev == entries(*previous),
            entries(next) == retagged(prev, all.take(i as int)),
            views(keys@) == touched(prev, all.take(i as int)),
        decreases n - i,
    {
        assert(all.take(i + 1).drop_last() =~= all.take(i as int));
        match changes_at(c, i) {
            Some((key, requested)) => {
                if !same_value(tags_get(previous, key.as_str()), requested) {
                    let ghost before = keys@;
                    keys.push(key.clone());
                    proof {
                        lemma_views_push(before, keys@.last());
                        assert(keys@ =~= before.push(keys@.last()));
                    }
                    match requested {
                        Some(v) => tags_insert(&mut next, key.clone(), v.clone()),
                        None => tags_remove(&mut next, key.as_str()),
                    }
                }
            },
            None => {},
        }
        i += 1;
    }
    assert(all.take(n as int) =~= all);
    (next, keys)
}

fn take_snapshot(keys: &[String], m: &TagMap) -> (r: TagChanges)
    ensures
        changes(r) == snapshot(views(keys@), entries(*m)),
{
    let mut out = changes_new();
    let mut i: usize = 0;
    assert(views(keys@).take(0) =~= Seq::<Seq<char>>::empty());
    while i < keys.len()
        invariant
            i <= keys@.len(),
            changes(out) == snapshot(views(keys@).take(i as int), entries(*m)),
        decreases keys.len() - i,
    {
        assert(views(keys@).take(i + 1).drop_last() =~= views(keys@).take(i as int));
        let value = match tags_get(m, keys[i].as_str()) {
            Some(v) => Some(v.clone()),
            None => None,
        };
        changes_insert(&mut out, keys[i].clone(), value);
        i += 1;
    }
    assert(views(keys@).take(keys@.len() as int) =~= views(keys@));
    out
}

fn copy_opt(v: &Option<String>) -> (r: Option<String>)
    ensures
        opt_view(r) == opt_view(*v),
{
    match v {
        Some(s) => Some(s.clone()),
        None => None,
    }
}

fn check_record(m: &SessionMetadata) -> (r: Option<String>)
    ensures
        opt_view(r) == record_error(m@),
{
    if let Some(name) = &m.display_name {
        match validate_display_name(name.as_str()) {
            Ok(()) => {},
            Err(e) => {
                return Some(e);
            },
        }
    }
    if let Some(tags) = &m.tags {
        if empty_tag_key(tags) {
            return Some("Resulting metadata contains an empty tag key.".to_owned());
        }
    }
    None
}

/// Apply a patch to a record.
pub fn apply_patch(patch: &MetadataPatch, metadata: &SessionMetadata) -> (r: PatchOutcome)
    ensures
        r.is_of(patch@, metadata@),
{
    let mut after = metadata.clone();
    let previous_tags = match &metadata.tags {
        Some(t) => tags_clone(t),
        None => tags_new(),
    };
    let mut previous = MetadataChangeSnapshot { display_name: None, tags: None };
    let mut value = MetadataChangeSnapshot { display_name: None, tags: None };
    let mut effective = false;
    if let Some(requested) = &patch.display_name {
        if !same_text(&metadata.display_name, requested) {
            previous.display_name = Some(copy_opt(&metadata.display_name));
            value.display_name = Some(copy_opt(requested));
            after.display_name = copy_opt(requested);
            effective = true;
        }
    }
    let mut next_tags = tags_clone(&previous_tags);
    if let Some(tags) = &patch.tags {
        let (next, keys) = retag(&previous_tags, tags);
        next_tags = next;
        if keys.len() > 0 {
            let keys = sort_strings(keys.as_slice());
            previous.tags = Some(take_snapshot(keys.as_slice(), &previous_tags));
            value.tags = Some(take_snapshot(keys.as_slice(), &next_tags));
            after.tags = if tags_len(&next_tags) == 0 {
                None
            } else {
                Some(tags_clone(&next_tags))
            };
            effective = true;
        }
    }
    assert(after@ =~= patched_record(patch@, metadata@));
    let mut error: Option<String> = None;
    if effective {
        error = check_record(&after);
    }
    let publish = effective && error.is_none();
    PatchOutcome { metadata: after, publish, error, previous_tags, next_tags, previous, value }
}

/// Which event a presentation patch emits.
#[derive(Debug, Clone, Copy, PartialEq, Eq, Structural)]
pub enum MetadataPatchEvent {
    MetadataChange,
    DisplayNameChange,
    TagsChange,
}

/// What is inside an optional name.
pub open spec fn flat_name(v: Option<Option<Seq<char>>>) -> Option<Seq<char>> {
    match v {
        Some(n) => n,
        None => None,
    }
}

/// The event that reports an outcome.
pub open spec fn patch_report(
    id: Seq<char>,
    ts: Seq<char>,
    event: MetadataPatchEvent,
    o: PatchOutcome,
) -> EventRecord {
    match event {
        MetadataPatchEvent::MetadataChange => with_field(
            with_field(plain_event(id, "metadata_change"@, ts), "previous"@, o.previous.json()),
            "value"@,
            o.value.json(),
        ),
        MetadataPatchEvent::DisplayNameChange => with_field(
            with_field(
                plain_event(id, "display_name_change"@, ts),
                "previous"@,
                nullable(flat_name(opt_opt_view(o.previous.display_name))),
            ),
            "value"@,
            nullable(flat_name(opt_opt_view(o.value.display_name))),
        ),
        MetadataPatchEvent::TagsChange => with_field(
            with_field(
                plain_event(id, "tags_change"@, ts),
                "previous"@,
                pairs_json(entries(o.previous_tags)),
            ),
            "value"@,
            pairs_json(entries(o.next_tags)),
        ),
    }
}

fn flatten_name(v: &Option<Option<String>>) -> (r: Option<String>)
    ensures
        opt_view(r) == flat_name(opt_opt_view(*v)),
{
    match v {
        Some(n) => copy_opt(n),
        None => None,
    }
}

/// The event that reports a published patch.
pub fn patch_event(id: &str, ts: &str, event: MetadataPatchEvent, o: &PatchOutcome) -> (r: Event)
    ensures
        r@ == patch_report(id@, ts@, event, *o),
{
    match event {
        MetadataPatchEvent::MetadataChange => Event::metadata_change(id, ts, &o.previous, &o.value),
        MetadataPatchEvent::DisplayNameChange => {
            let previous = flatten_name(&o.previous.display_name);
            let value = flatten_name(&o.value.display_name);
            Event::display_name_change(id, ts, &previous, &value)
        },
        MetadataPatchEvent::TagsChange => Event::tags_change(
            id,
            ts,
            &o.previous_tags,
            &o.next_tags,
        ),
    }
}

/// The result of a presentation patch.
#[derive(Debug, Clone, PartialEq)]
pub struct MetadataPatchResult {
    pub changed: bool,
    pub metadata: SessionMetadata,
}

/// The message for a session that is not there.
pub open spec fn not_found_text(id: Seq<char>) -> Seq<char> {
    "Session id \""@ + id + "\" not found."@
}

/// The message for a record that changed under an operation.
pub open spec fn changed_text(id: Seq<char>) -> Seq<char> {
    "Session id \""@ + id + "\" metadata changed during the operation. Retry it."@
}

fn about_id(id: &str, rest: &str) -> (r: String)
    ensures
        r@ == "Session id \""@ + id@ + rest@,
{
    let mut m = "Session id \"".to_owned();
    m.append(id);
    m.append(rest);
    m
}

/// Whether a patch may be tried: it must be valid, and the event lock taken.
pub fn begin_patch(id: &str, patch: &MetadataPatch, event_locked: bool) -> (r: Result<(), String>)
    ensures
        match r {
            Ok(()) => patch_error(patch@) is None && event_locked,
            Err(e) => match patch_error(patch@) {
                Some(text) => e@ == text,
                None => !event_locked && e@ == event_busy_text(id@),
            },
        },
{
    match patch.validate() {
        Ok(()) => {},
        Err(e) => {
            return Err(e);
        },
    }
    if !event_locked {
        return Err(event_busy_message(id));
    }
    Ok(())
}

/// What a presentation patch comes to, from the error that the patched record
/// showed and the outcome of the mutation.
pub fn apply_metadata_patch_by_id(
    id: &str,
    error: Option<String>,
    status: MutateStatus,
) -> (r: Result<MetadataPatchResult, String>)
    ensures
        match r {
            Ok(p) => error is None && (match status {
                MutateStatus::Unchanged(m) => !p.changed && p.metadata == m,
                MutateStatus::Changed(m) => p.changed && p.metadata == m,
                _ => false,
            }),
            Err(text) => match error {
                Some(e) => text == e,
                None => match status {
                    MutateStatus::Busy => text@ == metadata_busy_text(id@),
                    MutateStatus::Missing => text@ == not_found_text(id@),
                    MutateStatus::Stale | MutateStatus::GenerationMismatch => text@ == changed_text(
                        id@,
                    ),
                    _ => false,
                },
            },
        },
{
    if let Some(e) = error {
        return Err(e);
    }
    match status {
        MutateStatus::Busy => Err(metadata_busy_message(id)),
        MutateStatus::Missing => Err(about_id(id, "\" not found.")),
        MutateStatus::Stale | MutateStatus::GenerationMismatch => Err(
            about_id(id, "\" metadata changed during the operation. Retry it."),
        ),
        MutateStatus::Unchanged(metadata) => Ok(MetadataPatchResult { changed: false, metadata }),
        MutateStatus::Changed(metadata) => Ok(MetadataPatchResult { changed: true, metadata }),
    }
}

/// Whether a patch for one exact id may be tried: it must be valid, and the
/// record must be there.
pub fn patch_metadata_by_id(id: &str, patch: &MetadataPatch, is_file: bool) -> (r: Result<
    MetadataPatchEvent,
    String,
>)
    ensures
        match r {
            Ok(event) => patch_error(patch@) is None && is_file
                && event == MetadataPatchEvent::MetadataChange,
            Err(e) => match patch_error(patch@) {
                Some(text) => e@ == text,
                None => !is_file && e@ == not_found_text(id@),
            },
        },
{
    match patch.validate() {
        Ok(()) => {},
        Err(e) => {
            return Err(e);
        },
    }
    if !is_file {
        return Err(about_id(id, "\" not found."));
    }
    Ok(MetadataPatchEvent::MetadataChange)
}

/// The patch that sets the display name, or clears it (`None` or an empty
/// text), and the event that reports it.
pub fn set_display_name(display_name: Option<&str>) -> (r: (MetadataPatch, MetadataPatchEvent))
    ensures
        r.0@ == (PatchView {
            display_name: Some(
                match display_name {
                    Some(s) if s@.len() > 0 => Some(s@),
                    _ => None,
                },
            ),
            tags: None,
        }),
        r.1 == MetadataPatchEvent::DisplayNameChange,
{
    let name = match display_name {
        Some(s) => if s.is_empty() {
            None
        } else {
            Some(s.to_owned())
        },
        None => None,
    };
    (MetadataPatch { display_name: Some(name), tags: None }, MetadataPatchEvent::DisplayNameChange)
}

/// Updates as changes.
pub open spec fn settings(updates: Pairs) -> Changes {
    Seq::new(updates.len(), |i: int| (updates[i].0, Some(updates[i].1)))
}

/// Changes with removals behind them.
pub open spec fn with_removals(c: Changes, removals: Seq<Seq<char>>) -> Changes
    decreases removals.len(),
{
    if removals.len() == 0 {
        c
    } else {
        put(with_removals(c, removals.drop_last()), removals.last(), None)
    }
}

/// The patch that merges `updates` and removes `removals`, and the event that
/// reports it.
pub fn update_tags(updates: &TagMap, removals: &[String]) -> (r: (
    MetadataPatch,
    MetadataPatchEvent,
))
    ensures
        r.0@ == (PatchView {
            display_name: None,
            tags: Some(with_removals(settings(entries(*updates)), views(removals@))),
        }),
        r.1 == MetadataPatchEvent::TagsChange,
{
    let ghost all = settings(entries(*updates));
    let mut tags = changes_new();
    let n = tags_len(updates);
    let mut i: usize = 0;
    assert(changes(tags) =~= all.take(0));
    while i < n
        invariant
            i <= n,
            n == entries(*updates).len(),
            all == settings(entries(*updates)),
            changes(tags) == all.take(i as int),
        decreases n - i,
    {
        match tags_at(updates, i) {
            Some((k, v)) => {
                proof {
                    lemma_key_index(entries(*updates), k@, 0);
                    lemma_key_index(all.take(i as int), k@, 0);
                    if has_key(all.take(i as int), k@) {
                        let j = key_index(all.take(i as int), k@, 0);
                        assert(entries(*updates)[j].0 == k@);
                    }
                    assert(all.take(i + 1) =~= all.take(i as int).push(all[i as int]));
                }
                changes_insert(&mut tags, k.clone(), Some(v.clone()));
            },
            None => {},
        }
        i += 1;
    }
    assert(all.take(n as int) =~= all);
    let mut j: usize = 0;
    assert(views(removals@).take(0) =~= Seq::<Seq<char>>::empty());
    while j < removals.len()
        invariant
            j <= removals@.len(),
            changes(tags) == with_removals(all, views(removals@).take(j as int)),
        decreases removals.len() - j,
    {
        assert(views(removals@).take(j + 1).drop_last() =~= views(removals@).take(j as int));
        changes_insert(&mut tags, removals[j].clone(), None);
        j += 1;
    }
    assert(views(removals@).take(removals@.len() as int) =~= views(removals@));
    (MetadataPatch { display_name: None, tags: Some(tags) }, MetadataPatchEvent::TagsChange)
}

// ---- laws ----------------------------------------------------------------

/// What tags hold after changes: what was asked for a key that was asked for,
/// and what they held before for every other.
pub proof fn law_retagged(previous: Pairs, c: Changes, key: Seq<char>)
    requires
        distinct_keys(previous),
        distinct_keys(c),
    ensures
        distinct_keys(retagged(previous, c)),
        lookup(retagged(previous, c), key) == (match lookup(c, key) {
            Some(asked) => asked,
            None => lookup(previous, key),
        }),
    decreases c.len(),
{
    if c.len() > 0 {
        let d = c.drop_last();
        let k = c.last().0;
        assert(distinct_keys(d)) by {
            assert forall|i: int, j: int| 0 <= i < j < d.len() implies (#[trigger] d[i]).0 != (
            #[trigger] d[j]).0 by {
                assert(d[i] == c[i] && d[j] == c[j]);
            }
        }
        law_retagged(previous, d, key);
        let before = retagged(previous, d);
        match c.last().1 {
            Some(v) => law_put_then_lookup(before, k, v, key),
            None => law_without_then_lookup(before, k, key),
        }
        lemma_key_index(c, key, 0);
        lemma_key_index(d, key, 0);
        if key == k {
            lemma_key_found(c, c.len() - 1);
            if has_key(d, key) {
                let i = key_index(d, key, 0);
                assert(d[i] == c[i]);
                assert(c[i].0 == c[c.len() - 1].0);
            }
            assert(lookup(c, key) == Some(c.last().1));
        } else {
            if has_key(d, key) {
                let i = key_index(d, key, 0);
                assert(d[i] == c[i]);
                lemma_key_found(c, i);
                assert(lookup(c, key) == lookup(d, key));
            } else if has_key(c, key) {
                let i = key_index(c, key, 0);
                assert(c[i].0 == key);
                assert(d[i] == c[i]);
            }
        }
    }
}

/// A key that tags do not need to change for is not touched.
proof fn lemma_untouched(previous: Pairs, c: Changes)
    requires
        forall|i: int| 0 <= i < c.len() ==> lookup(previous, (#[trigger] c[i]).0) == c[i].1,
    ensures
        touched(previous, c).len() == 0,
        retagged(previous, c) == previous,
    decreases c.len(),
{
    if c.len() > 0 {
        let d = c.drop_last();
        assert forall|i: int| 0 <= i < d.len() implies lookup(previous, (#[trigger] d[i]).0)
            == d[i].1 by {
            assert(d[i] == c[i]);
        }
        lemma_untouched(previous, d);
        assert(c[c.len() - 1] == c.last());
    }
}

/// A patch that was applied changes nothing when it is applied again.
pub proof fn law_patch_is_idempotent(p: PatchView, m: MetaView)
    requires
        distinct_keys(tags_of(m)),
        distinct_keys(changes_of(p)),
    ensures
        !effective(p, patched_record(p, m)),
        patched_record(p, patched_record(p, m)) == patched_record(p, m),
{
    let c = changes_of(p);
    let after = patched_record(p, m);
    let next = retagged(tags_of(m), c);
    if retags(p, m) {
        assert(tags_of(after) =~= next);
        assert forall|i: int| 0 <= i < c.len() implies lookup(next, (#[trigger] c[i]).0) == c[i].1 by {
            law_retagged(tags_of(m), c, c[i].0);
            lemma_key_found(c, i);
        }
        lemma_untouched(next, c);
    }
    assert(patched_record(p, after) =~= after);
}

/// A removal wins over an update of the same key.
pub proof fn law_removals_win(updates: Pairs, removals: Seq<Seq<char>>, i: int)
    requires
        distinct_keys(updates),
        0 <= i < removals.len(),
    ensures
        distinct_keys(with_removals(settings(updates), removals)),
        lookup(with_removals(settings(updates), removals), removals[i]) == Some(None::<Seq<char>>),
    decreases removals.len(),
{
    let before = with_removals(settings(updates), removals.drop_last());
    assert(distinct_keys(settings(updates))) by {
        let s = settings(updates);
        assert forall|a: int, b: int| 0 <= a < b < s.len() implies (#[trigger] s[a]).0 != (
        #[trigger] s[b]).0 by {
            assert(updates[a].0 != updates[b].0);
        }
    }
    if removals.len() > 1 {
        if i < removals.len() - 1 {
            law_removals_win(updates, removals.drop_last(), i);
        } else {
            law_removals_win(updates, removals.drop_last(), 0);
        }
    }
    law_put_then_lookup(before, removals.last(), None, removals[i]);
}

/// A patch touches nothing but the display name and the tags.
pub proof fn law_patch_is_presentation_only(p: PatchView, m: MetaView)
    ensures
        patched_record(p, m) == (MetaView {
            display_name: patched_record(p, m).display_name,
            tags: patched_record(p, m).tags,
            ..m
        }),
{
}

/// When a record is the one that was observed: it is of the same generation, or
/// neither has one and both say the same.
pub proof fn law_observed_record(a: MetaView, b: MetaView)
    ensures
        a.generation is Some && b.generation is Some ==> (matches_observation(a, b) <==> a.generation
            == b.generation),
        a.generation is Some && b.generation is None ==> !matches_observation(a, b),
        a.generation is None && b.generation is Some ==> !matches_observation(a, b),
        a.generation is None && b.generation is None ==> (matches_observation(a, b) <==> same_members(
            record_members(a),
            record_members(b),
        )),
{
}

/// When a mutation may go on: everything that was expected of the record holds.
pub proof fn law_guards_of_a_mutation(o: MutateOptions, v: MetaView)
    ensures
        o.expected_generation is None && o.expected_metadata is None ==> guarded(o, v),
        o.expected_generation is Some && v.generation != Some(o.expected_generation->0@)
            ==> !guarded(o, v),
        o.expected_metadata is Some && !matches_observation(o.expected_metadata->0@, v) ==> !guarded(
            o,
            v,
        ),
        o.expected_generation is Some && v.generation == Some(o.expected_generation->0@) && (
        o.expected_metadata is Some ==> matches_observation(o.expected_metadata->0@, v)) ==> guarded(
            o,
            v,
        ),
        o.expected_generation is None && o.expected_metadata is Some && matches_observation(
            o.expected_metadata->0@,
            v,
        ) ==> guarded(o, v),
{
}

/// What is wrong with a patch: a display name that is none, or else a tag
/// without a key.
pub proof fn law_refused_patches(p: PatchView, name: Seq<char>)
    ensures
        p.display_name == Some(Some(name)) && display_name_error(name) is Some ==> patch_error(p)
            == Some("Invalid displayName: "@ + display_name_error(name)->0),
        (p.display_name matches Some(Some(n)) ==> display_name_error(n) is None) ==> {
            &&& p.tags is None ==> patch_error(p) is None
            &&& p.tags is Some && (exists|i: int|
                0 <= i < p.tags->0.len() && (#[trigger] p.tags->0[i]).0.len() == 0) ==> patch_error(
                p,
            ) == Some("Metadata patch tag keys must be non-empty."@)
            &&& p.tags is Some && !(exists|i: int|
                0 <= i < p.tags->0.len() && (#[trigger] p.tags->0[i]).0.len() == 0) ==> patch_error(
                p,
            ) is None
        },
{
}

/// Which fields a patch may have, and that the first other one is named.
pub proof fn law_fields_of_a_patch(m: Members, key: Seq<char>, v: JsonView)
    ensures
        unknown_field(Seq::empty()) is None,
        unknown_field(m) is Some ==> unknown_field(m.push((key, v))) == unknown_field(m),
        unknown_field(m) is None && (key == "displayName"@ || key == "tags"@) ==> unknown_field(
            m.push((key, v)),
        ) is None,
        unknown_field(m) is None && key != "displayName"@ && key != "tags"@ ==> unknown_field(
            m.push((key, v)),
        ) == Some(key),
{
    assert(m.push((key, v)).drop_last() =~= m);
    assert(m.push((key, v)).last() == (key, v));
}

/// The display name in a patch: a text sets it, null takes it away, and where
/// it is missing it stays.
pub proof fn law_name_in_a_patch(m: Members, s: Seq<char>)
    ensures
        lookup(m, "displayName"@) is None ==> name_in(m) == Ok::<
            Option<Option<Seq<char>>>,
            Seq<char>,
        >(None),
        lookup(m, "displayName"@) == Some(JsonView::Null) ==> name_in(m) == Ok::<
            Option<Option<Seq<char>>>,
            Seq<char>,
        >(Some(None)),
        lookup(m, "displayName"@) == Some(JsonView::Str(s)) ==> name_in(m) == Ok::<
            Option<Option<Seq<char>>>,
            Seq<char>,
        >(Some(Some(s))),
        lookup(m, "displayName"@) is Some && !(lookup(m, "displayName"@)->0 is Str) && !(lookup(
            m,
            "displayName"@,
        )->0 is Null) ==> name_in(m) == Err::<Option<Option<Seq<char>>>, Seq<char>>(
            "Metadata patch displayName must be a string or null."@,
        ),
{
}

/// The tags in a patch: a text sets a tag, null takes it away, and anything
/// else is refused by the tag's key.
pub proof fn law_tags_in_a_patch(t: Members, before: Changes, key: Seq<char>, s: Seq<char>, v: JsonView)
    requires
        changes_in(t) == Ok::<Changes, Seq<char>>(before),
    ensures
        changes_in(Seq::empty()) == Ok::<Changes, Seq<char>>(Seq::empty()),
        key.len() > 0 ==> changes_in(t.push((key, JsonView::Str(s)))) == Ok::<Changes, Seq<char>>(
            put(before, key, Some(s)),
        ),
        key.len() > 0 ==> changes_in(t.push((key, JsonView::Null))) == Ok::<Changes, Seq<char>>(
            put(before, key, None),
        ),
        key.len() > 0 && !(v is Str) && !(v is Null) ==> changes_in(t.push((key, v))) == Err::<
            Changes,
            Seq<char>,
        >(
            "Metadata patch tag values must be strings or null (invalid key: \""@ + key + "\")."@,
        ),
        key.len() == 0 ==> changes_in(t.push((key, v))) == Err::<Changes, Seq<char>>(
            "Metadata patch tag keys must be non-empty."@,
        ),
{
    assert(t.push((key, JsonView::Str(s))).drop_last() =~= t);
    assert(t.push((key, JsonView::Null)).drop_last() =~= t);
    assert(t.push((key, v)).drop_last() =~= t);
}

/// What is read as a patch: an object with a name and tags as above, where
/// nothing is wrong with them.
pub proof fn law_reading_a_patch(m: Members, t: Members, v: JsonView)
    ensures
        !(v is Object) ==> patch_in(v) == Err::<PatchView, Seq<char>>(
            "Metadata patch must be a JSON object."@,
        ),
        unknown_field(m) is Some ==> patch_in(JsonView::Object(m)) == Err::<PatchView, Seq<char>>(
            "Metadata patch has unknown field \""@ + unknown_field(m)->0
                + "\". Allowed fields: displayName, tags."@,
        ),
        lookup(m, "tags"@) is None ==> tags_in(m) == Ok::<Option<Changes>, Seq<char>>(None),
        lookup(m, "tags"@) == Some(JsonView::Object(t)) && changes_in(t) is Ok ==> tags_in(m)
            == Ok::<Option<Changes>, Seq<char>>(Some(changes_in(t)->Ok_0)),
        lookup(m, "tags"@) == Some(JsonView::Object(t)) && changes_in(t) is Err ==> tags_in(m)
            == Err::<Option<Changes>, Seq<char>>(changes_in(t)->Err_0),
        lookup(m, "tags"@) is Some && !(lookup(m, "tags"@)->0 is Object) ==> tags_in(m) == Err::<
            Option<Changes>,
            Seq<char>,
        >("Metadata patch tags must be a JSON object."@),
        unknown_field(m) is None && name_in(m) is Err ==> patch_in(JsonView::Object(m)) == Err::<
            PatchView,
            Seq<char>,
        >(name_in(m)->Err_0),
        unknown_field(m) is None && name_in(m) is Ok && tags_in(m) is Err ==> patch_in(
            JsonView::Object(m),
        ) == Err::<PatchView, Seq<char>>(tags_in(m)->Err_0),
        unknown_field(m) is None && name_in(m) is Ok && tags_in(m) is Ok ==> ({
            let p = PatchView { display_name: name_in(m)->Ok_0, tags: tags_in(m)->Ok_0 };
            patch_in(JsonView::Object(m)) == (if patch_error(p) is Some {
                Err::<PatchView, Seq<char>>(patch_error(p)->0)
            } else {
                Ok(p)
            })
        }),
{
}

/// The tags that a patch touches are those that it asks another value for.
pub proof fn law_touched_tags(previous: Pairs, c: Changes, key: Seq<char>)
    ensures
        touched(previous, c).contains(key) <==> exists|i: int|
            0 <= i < c.len() && (#[trigger] c[i]).0 == key && lookup(previous, key) != c[i].1,
    decreases c.len(),
{
    if c.len() > 0 {
        let rest = c.drop_last();
        law_touched_tags(previous, rest, key);
        let t = touched(previous, rest);
        let last = c.last();
        if touched(previous, c).contains(key) {
            let k = choose|k: int| 0 <= k < touched(previous, c).len() && touched(previous, c)[k]
                == key;
            if lookup(previous, last.0) != last.1 && k == t.len() {
                assert(c[c.len() - 1].0 == key);
            } else {
                assert(t[k] == key);
                assert(t.contains(key));
                let i = choose|i: int|
                    0 <= i < rest.len() && (#[trigger] rest[i]).0 == key && lookup(previous, key)
                        != rest[i].1;
                assert(c[i] == rest[i]);
            }
        }
        if exists|i: int|
            0 <= i < c.len() && (#[trigger] c[i]).0 == key && lookup(previous, key) != c[i].1 {
            let i = choose|i: int|
                0 <= i < c.len() && (#[trigger] c[i]).0 == key && lookup(previous, key) != c[i].1;
            if i < rest.len() {
                assert(rest[i] == c[i]);
                assert(t.contains(key));
                let k = choose|k: int| 0 <= k < t.len() && t[k] == key;
                assert(touched(previous, c)[k] == key);
            } else {
                assert(touched(previous, c)[t.len() as int] == key);
            }
        }
    }
}

/// A snapshot tells what each of the keys stands at, and of no other key.
pub proof fn law_snapshot_of_tags(keys: Seq<Seq<char>>, m: Pairs, key: Seq<char>)
    ensures
        distinct_keys(snapshot(keys, m)),
        keys.contains(key) ==> lookup(snapshot(keys, m), key) == Some(lookup(m, key)),
        !keys.contains(key) ==> lookup(snapshot(keys, m), key) is None,
    decreases keys.len(),
{
    if keys.len() > 0 {
        let rest = keys.drop_last();
        law_snapshot_of_tags(rest, m, key);
        law_put_then_lookup(snapshot(rest, m), keys.last(), lookup(m, keys.last()), key);
        if keys.contains(key) && key != keys.last() {
            let k = choose|k: int| 0 <= k < keys.len() && keys[k] == key;
            assert(rest[k] == key);
        }
        if rest.contains(key) {
            let k = choose|k: int| 0 <= k < rest.len() && rest[k] == key;
            assert(keys[k] == key);
        }
        if key == keys.last() {
            assert(keys[keys.len() - 1] == key);
        }
    }
}

/// What a patch makes of a record: the name it asks for, the tags it asks for,
/// no tags at all where none is left, and everything else as it was.
pub proof fn law_patched_record(p: PatchView, m: MetaView, key: Seq<char>)
    requires
        distinct_keys(tags_of(m)),
        distinct_keys(changes_of(p)),
        m.tags is Some ==> m.tags->0.len() > 0,
    ensures
        ({
            let r = patched_record(p, m);
            &&& p.display_name is Some ==> r.display_name == p.display_name->0
            &&& p.display_name is None ==> r.display_name == m.display_name
            &&& lookup(tags_of(r), key) == (if lookup(changes_of(p), key) is Some {
                lookup(changes_of(p), key)->0
            } else {
                lookup(tags_of(m), key)
            })
            &&& r.tags is Some ==> r.tags->0.len() > 0
            &&& r.command == m.command && r.args == m.args && r.generation == m.generation
            &&& r.cwd == m.cwd && r.exited_at == m.exited_at && r.exit_code == m.exit_code
        }),
        effective(p, m) <==> (p.display_name is Some && p.display_name->0 != m.display_name) || (
        exists|i: int|
            0 <= i < changes_of(p).len() && lookup(tags_of(m), (#[trigger] changes_of(p)[i]).0)
                != changes_of(p)[i].1),
{
    let (old_tags, c) = (tags_of(m), changes_of(p));
    law_retagged(old_tags, c, key);
    let next = retagged(old_tags, c);
    if exists|i: int| 0 <= i < c.len() && lookup(old_tags, (#[trigger] c[i]).0) != c[i].1 {
        let i = choose|i: int| 0 <= i < c.len() && lookup(old_tags, (#[trigger] c[i]).0) != c[i].1;
        law_touched_tags(old_tags, c, c[i].0);
        assert(touched(old_tags, c).contains(c[i].0));
        assert(retags(p, m));
    } else {
        lemma_untouched(old_tags, c);
        assert(!retags(p, m));
    }
    if next.len() == 0 {
        assert(lookup(next, key) is None);
    }
}

/// The record's tags, and what is wrong with a record after a patch.
pub proof fn law_record_after_a_patch(m: MetaView, p: PatchView)
    ensures
        m.tags is None ==> tags_of(m).len() == 0,
        m.tags is Some ==> tags_of(m) == m.tags->0,
        p.tags is None ==> changes_of(p).len() == 0,
        p.tags is Some ==> changes_of(p) == p.tags->0,
        m.display_name is Some && display_name_error(m.display_name->0) is Some ==> record_error(m)
            == display_name_error(m.display_name->0),
        (m.display_name is None || display_name_error(m.display_name->0) is None) ==> record_error(m)
            == (if exists|i: int| 0 <= i < tags_of(m).len() && (#[trigger] tags_of(m)[i]).0.len() == 0 {
            Some("Resulting metadata contains an empty tag key."@)
        } else {
            None
        }),
{
}

/// What comes of a patch: the patched record, published where something changed
/// and nothing is wrong, and what the name and the touched tags were before and
/// are after it.
pub proof fn law_outcome_of_a_patch(o: PatchOutcome, p: PatchView, m: MetaView, key: Seq<char>)
    requires
        o.is_of(p, m),
        distinct_keys(tags_of(m)),
        distinct_keys(changes_of(p)),
    ensures
        o.metadata@ == patched_record(p, m),
        o.publish <==> effective(p, m) && record_error(o.metadata@) is None,
        o.error is Some <==> effective(p, m) && record_error(o.metadata@) is Some,
        entries(o.previous_tags) == tags_of(m),
        lookup(entries(o.next_tags), key) == (if lookup(changes_of(p), key) is Some {
            lookup(changes_of(p), key)->0
        } else {
            lookup(tags_of(m), key)
        }),
        p.display_name is Some && p.display_name->0 != m.display_name ==> opt_opt_view(
            o.previous.display_name,
        ) == Some(m.display_name) && opt_opt_view(o.value.display_name) == p.display_name,
        p.display_name is None || p.display_name->0 == m.display_name ==> o.previous.display_name
            is None && o.value.display_name is None,
        lookup(changes_of(p), key) is Some && lookup(changes_of(p), key)->0 != lookup(
            tags_of(m),
            key,
        ) ==> o.previous.tags is Some && o.value.tags is Some && lookup(
            changes(o.previous.tags->0),
            key,
        ) == Some(lookup(tags_of(m), key)) && lookup(changes(o.value.tags->0), key) == lookup(
            changes_of(p),
            key,
        ),
        (lookup(changes_of(p), key) is None || lookup(changes_of(p), key)->0 == lookup(
            tags_of(m),
            key,
        )) && o.previous.tags is Some ==> lookup(changes(o.previous.tags->0), key) is None,
{
    let (old_tags, c) = (tags_of(m), changes_of(p));
    law_retagged(old_tags, c, key);
    law_touched_tags(old_tags, c, key);
    let t = touched(old_tags, c);
    let keys = sorted(t);
    crate::text::law_sorted(t);
    assert(keys.contains(key) <==> t.contains(key)) by {
        assert(keys.to_multiset().count(key) == t.to_multiset().count(key));
        t.to_multiset_ensures();
        keys.to_multiset_ensures();
    }
    law_snapshot_of_tags(keys, old_tags, key);
    law_snapshot_of_tags(keys, retagged(old_tags, c), key);
    lemma_key_index(c, key, 0);
    if lookup(c, key) is Some && lookup(c, key)->0 != lookup(old_tags, key) {
        let i = key_index(c, key, 0);
        assert(c[i].0 == key && lookup(old_tags, key) != c[i].1);
        assert(t.contains(key));
    } else if t.contains(key) {
        let i = choose|i: int|
            0 <= i < c.len() && (#[trigger] c[i]).0 == key && lookup(old_tags, key) != c[i].1;
        lemma_key_found(c, i);
        assert(false);
    }
}

/// What is reported of a patch: the session, the kind of change, what was there
/// before and what is there now.
pub proof fn law_report_of_a_patch(id: Seq<char>, ts: Seq<char>, o: PatchOutcome)
    ensures
        ({
            let e = patch_report(id, ts, MetadataPatchEvent::MetadataChange, o);
            &&& e.session == id && e.ts == ts && e.type_ == "metadata_change"@
            &&& lookup(e.payload, "previous"@) == Some(o.previous.json())
            &&& lookup(e.payload, "value"@) == Some(o.value.json())
        }),
        ({
            let e = patch_report(id, ts, MetadataPatchEvent::DisplayNameChange, o);
            &&& e.session == id && e.ts == ts && e.type_ == "display_name_change"@
            &&& lookup(e.payload, "previous"@) == Some(
                nullable(flat_name(opt_opt_view(o.previous.display_name))),
            )
            &&& lookup(e.payload, "value"@) == Some(
                nullable(flat_name(opt_opt_view(o.value.display_name))),
            )
        }),
        ({
            let e = patch_report(id, ts, MetadataPatchEvent::TagsChange, o);
            &&& e.session == id && e.ts == ts && e.type_ == "tags_change"@
            &&& lookup(e.payload, "previous"@) == Some(pairs_json(entries(o.previous_tags)))
            &&& lookup(e.payload, "value"@) == Some(pairs_json(entries(o.next_tags)))
        }),
{
    reveal_strlit("previous");
    reveal_strlit("value");
    assert("previous"@.len() == 8 && "value"@.len() == 5);
    lemma_two_fields(o.previous.json(), o.value.json());
    lemma_two_fields(
        nullable(flat_name(opt_opt_view(o.previous.display_name))),
        nullable(flat_name(opt_opt_view(o.value.display_name))),
    );
    lemma_two_fields(pairs_json(entries(o.previous_tags)), pairs_json(entries(o.next_tags)));
}

proof fn lemma_two_fields(a: JsonView, b: JsonView)
    ensures
        ({
            let m = put(put(Seq::<(Seq<char>, JsonView)>::empty(), "previous"@, a), "value"@, b);
            lookup(m, "previous"@) == Some(a) && lookup(m, "value"@) == Some(b)
        }),
{
    reveal_strlit("previous");
    reveal_strlit("value");
    assert("previous"@.len() == 8 && "value"@.len() == 5);
    let none = Seq::<(Seq<char>, JsonView)>::empty();
    law_put_then_lookup(none, "previous"@, a, "value"@);
    law_put_then_lookup(put(none, "previous"@, a), "value"@, b, "previous"@);
}

/// A name that is not given, or given as none, is none.
pub proof fn law_flat_names(n: Seq<char>)
    ensures
        flat_name(None) is None,
        flat_name(Some(None)) is None,
        flat_name(Some(Some(n))) == Some(n),
{
}

/// What is said where a session is not found or changed meanwhile.
pub proof fn law_messages_of_a_patch(id: Seq<char>)
    ensures
        not_found_text(id) == "Session id \""@ + id + "\" not found."@,
        changed_text(id) == "Session id \""@ + id
            + "\" metadata changed during the operation. Retry it."@,
{
}

/// The changes that updates and removals ask for: each update sets its tag
/// unless the tag is removed, and a tag that is in neither is not named.
pub proof fn law_asked_changes(updates: Pairs, removals: Seq<Seq<char>>, key: Seq<char>)
    requires
        distinct_keys(updates),
        !removals.contains(key),
    ensures
        lookup(with_removals(settings(updates), removals), key) == (if lookup(updates, key) is Some {
            Some(lookup(updates, key))
        } else {
            None
        }),
        distinct_keys(with_removals(settings(updates), removals)),
    decreases removals.len(),
{
    if removals.len() > 0 {
        let rest = removals.drop_last();
        if rest.contains(key) {
            let k = choose|k: int| 0 <= k < rest.len() && rest[k] == key;
            assert(removals[k] == key);
        }
        law_asked_changes(updates, rest, key);
        assert(removals.contains(removals[removals.len() - 1]));
        law_put_then_lookup(with_removals(settings(updates), rest), removals.last(), None, key);
    } else {
        let s = settings(updates);
        assert(distinct_keys(s)) by {
            assert forall|i: int, j: int| 0 <= i < j < s.len() implies (#[trigger] s[i]).0 != (
            #[trigger] s[j]).0 by {
                assert(updates[i].0 != updates[j].0);
            }
        }
        lemma_key_index(updates, key, 0);
        lemma_key_index(s, key, 0);
        if has_key(updates, key) {
            let i = key_index(updates, key, 0);
            assert(s[i].0 == key);
            lemma_key_found(s, i);
        } else if has_key(s, key) {
            let i = key_index(s, key, 0);
            assert(updates[i].0 == key);
            lemma_key_found(updates, i);
        }
    }
}

/// Two patches with the same content ask for the same.
pub proof fn law_patches_are_told_apart(a: MetadataPatch, b: MetadataPatch)
    ensures
        a@ == b@ ==> opt_opt_view(a.display_name) == opt_opt_view(b.display_name) && opt_changes(
            a.tags,
        ) == opt_changes(b.tags),
{
}

} // verus!
