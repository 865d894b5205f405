//! Session registry: the on-disk layout under the registry root.
//!
//! Per session: `<name>.json` (metadata), `<name>.sock`, `<name>.pid`,
//! `<name>.events.jsonl`, `<name>.lock`, `<name>.events.lock`, and
//! `.recovery/<name>.revision.json`. Atomic writes go through
//! `<path>.tmp.<pid>.<16 hex>` and a rename; readers skip names that contain
//! `.tmp.`.

pub mod time;
pub mod names;
pub mod root;
pub mod metadata;
pub mod activity;
pub mod cleanup;
pub mod tags;
pub mod lock;
pub mod atomic;
pub mod list;
pub mod evidence;
pub mod mutate;
