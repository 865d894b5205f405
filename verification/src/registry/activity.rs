//! `.activity/<name>.json`: where a running daemon keeps the stamp of its
//! newest output, so that `<name>.json` changes only when a lifecycle, tag or
//! client fact changes. The sidecar names the generation that wrote it, so
//! that a reader never credits one daemon's output to the next daemon that
//! reuses the id.

use super::metadata::{MetaView, SessionMetadata};
use crate::json::{
    compact, lemma_flat_object_is_readable, max_nesting, parsed_bytes, to_json_text, Json, JsonMap,
    JsonView,
};
use crate::text::str_eq;
use vstd::prelude::*;
use vstd::utf8::{encode_utf8, encode_utf8_decode_utf8, encode_utf8_valid_utf8};

verus! {

/// The sidecar's content.
#[derive(Debug, Clone, PartialEq, Eq)]
pub struct OutputActivity {
    /// The daemon generation that observed the output.
    pub generation: String,
    /// Unix milliseconds of the newest child output that daemon has seen.
    pub last_output_at_ms: i64,
}

impl OutputActivity {
    /// The JSON form.
    pub open spec fn json(self) -> JsonView {
        JsonView::Object(
            seq![
                ("generation"@, JsonView::Str(self.generation@)),
                ("lastOutputAtMs"@, JsonView::Int(self.last_output_at_ms as int)),
            ],
        )
    }

    /// Build the JSON form.
    pub fn to_json(&self) -> (j: Json)
        ensures
            j@ == self.json(),
    {
        proof {
            reveal_strlit("generation");
            reveal_strlit("lastOutputAtMs");
            assert("generation"@.len() == 10);
            assert("lastOutputAtMs"@.len() == 14);
        }
        let stamp = if self.last_output_at_ms < 0 {
            Json::NegInt(self.last_output_at_ms)
        } else {
            Json::PosInt(self.last_output_at_ms as u64)
        };
        let mut m = JsonMap::new();
        m.add_member("generation", Json::Str(self.generation.clone()));
        m.add_member("lastOutputAtMs", stamp);
        assert(m@ =~= self.json()->Object_0);
        Json::Object(m)
    }
}

/// The text that a sidecar holds on disk; its bytes are read back as it.
pub fn write_output_activity(activity: &OutputActivity) -> (r: String)
    ensures
        r@ == compact(activity.json()),
        parsed_bytes(encode_utf8(r@)) == Some(activity.json()),
{
    let r = to_json_text(&activity.to_json());
    proof {
        reveal_strlit("generation");
        reveal_strlit("lastOutputAtMs");
        assert("generation"@.len() == 10);
        assert("lastOutputAtMs"@.len() == 14);
        lemma_flat_object_is_readable(activity.json()->Object_0, max_nesting());
        encode_utf8_valid_utf8(r@);
        encode_utf8_decode_utf8(r@);
    }
    r
}

/// The newest output stamp that a record and a sidecar give together. A
/// recorded exit answers for itself; a running record defers to a sidecar
/// written by its own generation, and otherwise keeps the stamp it carries.
pub open spec fn newest_stamp(v: MetaView, sidecar: Option<OutputActivity>) -> Option<i64> {
    match sidecar {
        Some(a) => if v.exited_at is None && v.generation == Some(a.generation@) {
            Some(a.last_output_at_ms)
        } else {
            v.last_output_at_ms
        },
        None => v.last_output_at_ms,
    }
}

/// Computes `newest_stamp`.
pub fn newest_output_at_ms(metadata: &SessionMetadata, sidecar: Option<&OutputActivity>) -> (r:
    Option<i64>)
    ensures
        r == newest_stamp(
            metadata@,
            match sidecar {
                Some(a) => Some(*a),
                None => None,
            },
        ),
{
    if !metadata.has_exited() {
        if let Some(activity) = sidecar {
            if let Some(generation) = &metadata.generation {
                if str_eq(generation.as_str(), activity.generation.as_str()) {
                    return Some(activity.last_output_at_ms);
                }
            }
        }
    }
    metadata.last_output_at_ms
}

/// Whether a reader needs the sidecar at all: a record with an exit answers
/// for itself.
pub fn needs_sidecar(metadata: &SessionMetadata) -> (r: bool)
    ensures
        r == (metadata@.exited_at is None),
        !r ==> forall|s: Option<OutputActivity>|
            newest_stamp(metadata@, s) == metadata@.last_output_at_ms,
{
    !metadata.has_exited()
}

/// Another generation's output is never credited to a record.
pub proof fn law_foreign_output_is_not_credited(v: MetaView, a: OutputActivity)
    requires
        v.generation != Some(a.generation@),
    ensures
        newest_stamp(v, Some(a)) == newest_stamp(v, None),
{
}

/// What the sidecar says.
pub proof fn law_sidecar_of_an_activity(a: OutputActivity)
    ensures
        a.json() is Object,
        a.json()->Object_0 == seq![
            ("generation"@, JsonView::Str(a.generation@)),
            ("lastOutputAtMs"@, JsonView::Int(a.last_output_at_ms as int)),
        ],
{
}

/// While the session runs, the sidecar of its own generation gives the newest
/// output; otherwise the record does.
pub proof fn law_newest_output(v: MetaView, a: OutputActivity)
    ensures
        v.exited_at is None && v.generation == Some(a.generation@) ==> newest_stamp(v, Some(a))
            == Some(a.last_output_at_ms),
        v.exited_at is Some || v.generation is None ==> newest_stamp(v, Some(a))
            == v.last_output_at_ms,
        newest_stamp(v, None) == v.last_output_at_ms,
{
}

} // verus!
