//! Tag rules shared by the command line, the daemon and garbage collection:
//! the reserved-key rule, filter matching, the `keep` tag, exit-time reap
//! precedence, and the bookkeeping keys that a manual restart strips.

use super::metadata::{MetaView, Pairs, SessionMetadata};
use super::names::{js_trim, js_trimmed};
use super::time::{iso_ms, parse_iso8601_ms};
use crate::maps::{
    entries, opt_entries, ref_entries, tags_at, tags_get, tags_insert, tags_len,
    tags_new, TagMap,
};
use crate::pairs::{
    lemma_key_absent, lemma_key_index, lookup, put,
};
use crate::text::{
    begins, find_from, index_from, lemma_lowered_ascii, lemma_views_push, lower_text, lowered,
    starts_with, str_eq, substring, to_chars, to_lowercase, views,
};
use vstd::prelude::*;
use vstd::utf8::is_ascii_chars;

verus! {

/// Keys that are treated as bookkeeping and hidden from the default listing.
pub open spec fn reserved_key(key: Seq<char>) -> bool {
    key == "ptyfile"@ || key == "ptyfile.session"@ || key == "ptyfile.tags"@ || key
        == "strategy"@ || begins(key, ":"@)
}

/// Reserved: one of four exact keys, or any key starting with `:`.
pub fn is_reserved_tag_key(key: &str) -> (r: bool)
    ensures
        r == reserved_key(key@),
{
    str_eq(key, "ptyfile") || str_eq(key, "ptyfile.session") || str_eq(key, "ptyfile.tags")
        || str_eq(key, "strategy") || starts_with(key, ":")
}

/// Whether tags hold every pair of a filter.
pub open spec fn matches_all(tags: Pairs, filter: Pairs) -> bool {
    forall|i: int|
        0 <= i < filter.len() ==> lookup(tags, (#[trigger] filter[i]).0) == Some(filter[i].1)
}

/// `true` when the session's tags contain every pair of `filter`. An empty
/// filter always matches; a session without tags matches only an empty filter.
pub fn matches_all_tags(session_tags: Option<&TagMap>, filter: &TagMap) -> (r: bool)
    ensures
        r == matches_all(ref_entries(session_tags), entries(*filter)),
{
    let n = tags_len(filter);
    let mut i: usize = 0;
    while i < n
        invariant
            i <= n,
            n == entries(*filter).len(),
            forall|j: int|
                0 <= j < i ==> lookup(
                    ref_entries(session_tags),
                    (#[trigger] entries(*filter)[j]).0,
                ) == Some(entries(*filter)[j].1),
        decreases n - i,
    {
        match tags_at(filter, i) {
            Some((k, v)) => {
                let found = match session_tags {
                    Some(tags) => match tags_get(tags, k.as_str()) {
                        Some(w) => str_eq(w.as_str(), v.as_str()),
                        None => false,
                    },
                    None => {
                        proof {
                            lemma_key_absent(ref_entries(session_tags), k@);
                        }
                        false
                    },
                };
                if !found {
                    assert(lookup(ref_entries(session_tags), entries(*filter)[i as int].0) != Some(
                        entries(*filter)[i as int].1,
                    ));
                    return false;
                }
            },
            None => {
                assert(false);
            },
        }
        i += 1;
    }
    true
}

/// An empty filter matches every session.
pub proof fn law_empty_filter_matches(tags: Pairs)
    ensures
        matches_all(tags, Seq::empty()),
{
}

/// A longer filter never matches more sessions.
pub proof fn law_filters_narrow(tags: Pairs, filter: Pairs, more: Pairs)
    ensures
        matches_all(tags, filter + more) <==> matches_all(tags, filter) && matches_all(tags, more),
{
    let all = filter + more;
    if matches_all(tags, all) {
        assert forall|i: int| 0 <= i < filter.len() implies lookup(
            tags,
            (#[trigger] filter[i]).0,
        ) == Some(filter[i].1) by {
            assert(all[i] == filter[i]);
        }
        assert forall|i: int| 0 <= i < more.len() implies lookup(tags, (#[trigger] more[i]).0)
            == Some(more[i].1) by {
            assert(all[filter.len() + i] == more[i]);
        }
    }
    if matches_all(tags, filter) && matches_all(tags, more) {
        assert forall|i: int| 0 <= i < all.len() implies lookup(tags, (#[trigger] all[i]).0)
            == Some(all[i].1) by {
            if i < filter.len() {
                assert(all[i] == filter[i]);
            } else {
                assert(all[i] == more[i - filter.len()]);
            }
        }
    }
}

/// The flag that takes a filter.
pub open spec fn filter_flag() -> Seq<char> {
    "--filter-tag"@
}

/// Whether the argument after a filter flag is a `key=value`.
pub open spec fn has_pair(args: Seq<Seq<char>>) -> bool {
    args.len() >= 2 && index_from(args[1], '=', 0) < args[1].len()
}

/// The arguments that are no filters. Where a filter is not understood,
/// everything from its flag on is left.
pub open spec fn unfiltered(args: Seq<Seq<char>>) -> Seq<Seq<char>>
    decreases args.len(),
{
    if args.len() == 0 {
        args
    } else if args[0] != filter_flag() {
        seq![args[0]] + unfiltered(args.skip(1))
    } else if has_pair(args) {
        unfiltered(args.skip(2))
    } else {
        args
    }
}

/// Whether every filter flag is followed by a `key=value`.
pub open spec fn filters_ok(args: Seq<Seq<char>>) -> bool
    decreases args.len(),
{
    if args.len() == 0 {
        true
    } else if args[0] != filter_flag() {
        filters_ok(args.skip(1))
    } else {
        has_pair(args) && filters_ok(args.skip(2))
    }
}

/// The key of a `key=value`: what stands before the first `=`.
pub open spec fn pair_key(kv: Seq<char>) -> Seq<char> {
    kv.take(index_from(kv, '=', 0))
}

/// The value of a `key=value`: what stands behind the first `=`.
pub open spec fn pair_value(kv: Seq<char>) -> Seq<char> {
    kv.skip(index_from(kv, '=', 0) + 1)
}

/// The filters of the arguments, added to those found before; the last value
/// of a key wins.
pub open spec fn filters(args: Seq<Seq<char>>, before: Pairs) -> Pairs
    decreases args.len(),
{
    if args.len() == 0 {
        before
    } else if args[0] != filter_flag() {
        filters(args.skip(1), before)
    } else if has_pair(args) {
        filters(args.skip(2), put(before, pair_key(args[1]), pair_value(args[1])))
    } else {
        before
    }
}

/// Pull every `--filter-tag key=value` pair out of `args`. A value that is
/// missing or has no `=` is an error.
pub fn extract_filter_tags(args: &mut Vec<String>) -> (r: Result<TagMap, String>)
    ensures
        views(final(args)@) == unfiltered(views(old(args)@)),
        match r {
            Ok(tags) => filters_ok(views(old(args)@)) && entries(tags) == filters(
                views(old(args)@),
                Seq::empty(),
            ),
            Err(e) => !filters_ok(views(old(args)@)) && e@
                == "--filter-tag expects \"key=value\""@,
        },
{
    let ghost all = views(args@);
    let mut kept: Vec<String> = Vec::new();
    let mut tags = tags_new();
    let mut i: usize = 0;
    let mut ok = true;
    assert(all.skip(0) =~= all);
    assert(views(kept@) + unfiltered(all) =~= unfiltered(all));
    while i < args.len() && ok
        invariant
            i <= args@.len(),
            all == views(args@),
            args@ == old(args)@,
            views(kept@) + unfiltered(all.skip(i as int)) == unfiltered(all),
            filters(all.skip(i as int), entries(tags)) == filters(all, Seq::empty()),
            filters_ok(all.skip(i as int)) == filters_ok(all),
            !ok ==> !filters_ok(all.skip(i as int)) && unfiltered(all.skip(i as int)) == all.skip(
                i as int,
            ),
        decreases
                args.len() - i,
                (if ok {
                    1int
                } else {
                    0int
                }),
    {
        let ghost rest = all.skip(i as int);
        assert(rest[0] == args@[i as int]@);
        if !str_eq(args[i].as_str(), "--filter-tag") {
            let ghost before = kept@;
            kept.push(args[i].clone());
            proof {
                lemma_views_push(before, kept@.last());
                assert(kept@ =~= before.push(kept@.last()));
                assert(rest.skip(1) =~= all.skip(i + 1));
                assert(views(before) + (seq![rest[0]] + unfiltered(rest.skip(1))) =~= views(
                    before,
                ).push(rest[0]) + unfiltered(rest.skip(1)));
            }
            i += 1;
        } else if args.len() - i < 2 {
            ok = false;
        } else {
            let kv = to_chars(args[i + 1].as_str());
            assert(rest[1] == kv@);
            let eq = find_from(kv.as_slice(), '=', 0);
            if eq == kv.len() {
                ok = false;
            } else {
                let k = substring(kv.as_slice(), 0, eq);
                let v = substring(kv.as_slice(), eq + 1, kv.len());
                assert(k@ =~= pair_key(kv@));
                assert(v@ =~= pair_value(kv@));
                tags_insert(&mut tags, k, v);
                assert(rest.skip(2) =~= all.skip(i + 2));
                i += 2;
            }
        }
    }
    if ok {
        assert(all.skip(i as int) =~= Seq::<Seq<char>>::empty());
        assert(views(kept@) =~= unfiltered(all));
        *args = kept;
        Ok(tags)
    } else {
        let n = args.len();
        let ghost start = views(kept@);
        let ghost from = i as int;
        assert(start + all.subrange(from, from) =~= start);
        while i < n
            invariant
                0 <= from <= i <= n,
                n == args@.len(),
                all == views(args@),
                views(kept@) == start + all.subrange(from, i as int),
            decreases n - i,
        {
            let ghost before = kept@;
            kept.push(args[i].clone());
            proof {
                lemma_views_push(before, kept@.last());
                assert(kept@ =~= before.push(kept@.last()));
                assert(start + all.subrange(from, i + 1) =~= (start + all.subrange(
                    from,
                    i as int,
                )).push(all[i as int]));
            }
            i += 1;
        }
        assert(all.subrange(from, n as int) =~= all.skip(from));
        *args = kept;
        Err("--filter-tag expects \"key=value\"".to_owned())
    }
}

/// Tag key that exempts a session from the daemon's exit-time self-reap, and
/// from garbage collection for a bounded window.
pub const KEEP_TAG: &'static str = "keep";

/// A trimmed, lower-case value that reads as "no".
pub open spec fn falsey(v: Seq<char>) -> bool {
    v == "false"@ || v == "0"@ || v == "no"@ || v == "off"@
}

/// A raw value that reads as "no".
pub open spec fn no_value(raw: Seq<char>) -> bool {
    falsey(lower_text(js_trimmed(raw)))
}

/// Decides whether a trimmed, lower-case value reads as "no".
pub fn is_falsey(normalized: &str) -> (r: bool)
    ensures
        r == falsey(normalized@),
{
    str_eq(normalized, "false") || str_eq(normalized, "0") || str_eq(normalized, "no") || str_eq(
        normalized,
        "off",
    )
}

fn reads_as_no(raw: &str) -> (r: bool)
    ensures
        r == no_value(raw@),
{
    let trimmed = js_trim(raw);
    let normalized = to_lowercase(trimmed.as_str());
    is_falsey(normalized.as_str())
}

/// Whether tags ask for the session to be retained after death.
pub open spec fn keeps(tags: Pairs) -> bool {
    match lookup(tags, "keep"@) {
        Some(raw) => !no_value(raw),
        None => false,
    }
}

/// `true` when `tags` asks for the session to be retained after death: the
/// `keep` key is present with any value that does not read as "no".
pub fn is_keep_requested(tags: Option<&TagMap>) -> (r: bool)
    ensures
        r == keeps(ref_entries(tags)),
{
    match tags {
        Some(t) => match tags_get(t, KEEP_TAG) {
            Some(raw) => !reads_as_no(raw.as_str()),
            None => false,
        },
        None => {
            proof {
                lemma_key_absent(ref_entries(tags), "keep"@);
            }
            false
        },
    }
}

/// How long `keep` holds a dead session against garbage collection: seven
/// days.
pub const DEFAULT_KEEP_MAX_AGE_MS: i64 = 604_800_000;

/// The timestamp that a dead session's age counts from: when it exited, else
/// when it was created.
pub open spec fn age_anchor(v: MetaView) -> Seq<char> {
    match v.exited_at {
        Some(t) => if t.len() > 0 {
            t
        } else {
            v.created_at
        },
        None => v.created_at,
    }
}

/// Has a dead, kept session outlived its retention window? A record without a
/// readable timestamp has no age and never expires, unless `max_age_ms` is
/// not positive: that expires everything.
pub fn is_keep_expired(metadata: Option<&SessionMetadata>, now_ms: i64, max_age_ms: i64) -> (r:
    bool)
    ensures
        r == (max_age_ms <= 0 || (metadata matches Some(m) && (iso_ms(
            age_anchor(m@),
        ) matches Some(ts) && now_ms - ts >= max_age_ms))),
{
    if max_age_ms <= 0 {
        return true;
    }
    match metadata {
        None => false,
        Some(meta) => {
            let anchor = match &meta.exited_at {
                Some(t) => {
                    if t.as_str().is_empty() {
                        meta.created_at.as_str()
                    } else {
                        t.as_str()
                    }
                },
                None => meta.created_at.as_str(),
            };
            match parse_iso8601_ms(anchor) {
                Some(ts) => now_ms as i128 - ts as i128 >= max_age_ms as i128,
                None => false,
            }
        },
    }
}

/// The default for exit-time reaping, from `PTY_REAP_ON_EXIT`: unset means
/// reap, a value that reads as "no" means preserve, anything else reap.
pub fn reap_on_exit_default(value: Option<&str>) -> (r: bool)
    ensures
        r == (match value {
            Some(raw) => !no_value(raw@),
            None => true,
        }),
{
    match value {
        Some(raw) => !reads_as_no(raw),
        None => true,
    }
}

/// Whether a session's entry is removed as its daemon shuts down. Precedence,
/// highest first: `keep` preserves; ephemeral reaps; a permanent strategy
/// preserves; else the default.
pub open spec fn reaps(tags: Pairs, ephemeral: bool, default_reap: bool) -> bool {
    if keeps(tags) {
        false
    } else if ephemeral {
        true
    } else if lookup(tags, "strategy"@) == Some("permanent"@) {
        false
    } else {
        default_reap
    }
}

/// Should the daemon remove its own registry entry as it shuts down?
pub fn should_reap_at_exit(tags: Option<&TagMap>, ephemeral: bool, default_reap: bool) -> (r: bool)
    ensures
        r == reaps(ref_entries(tags), ephemeral, default_reap),
{
    if is_keep_requested(tags) {
        return false;
    }
    if ephemeral {
        return true;
    }
    let permanent = match tags {
        Some(t) => match tags_get(t, "strategy") {
            Some(v) => str_eq(v.as_str(), "permanent"),
            None => false,
        },
        None => {
            proof {
                lemma_key_absent(ref_entries(tags), "strategy"@);
            }
            false
        },
    };
    if permanent {
        return false;
    }
    default_reap
}

/// A value that reads as "no" does so in any case and with white space around
/// it, so a session is not kept for it.
pub proof fn law_no_is_read_in_any_case(tags: Pairs, raw: Seq<char>)
    requires
        lookup(tags, "keep"@) == Some(raw),
        falsey(lowered(js_trimmed(raw))),
    ensures
        no_value(raw),
        !keeps(tags),
{
    reveal_strlit("false");
    reveal_strlit("0");
    reveal_strlit("no");
    reveal_strlit("off");
    assert(is_ascii_chars(lowered(js_trimmed(raw))));
    lemma_lowered_ascii(js_trimmed(raw));
}

/// `keep` wins over everything else: a session that asks to be kept is never
/// reaped at exit.
pub proof fn law_keep_wins(tags: Pairs, ephemeral: bool, default_reap: bool)
    requires
        keeps(tags),
    ensures
        !reaps(tags, ephemeral, default_reap),
{
}

/// Bookkeeping keys of garbage collection.
pub open spec fn bookkeeping_key(key: Seq<char>) -> bool {
    key == "strategy.status"@ || key == "strategy.consecutive-fast-fails"@ || key
        == "strategy.last-respawn-at"@ || key == "strategy.command-hash"@
}

fn is_bookkeeping_key(key: &str) -> (r: bool)
    ensures
        r == bookkeeping_key(key@),
{
    str_eq(key, "strategy.status") || str_eq(key, "strategy.consecutive-fast-fails") || str_eq(
        key,
        "strategy.last-respawn-at",
    ) || str_eq(key, "strategy.command-hash")
}

/// The pairs whose key is no bookkeeping key, in order.
pub open spec fn stripped(tags: Pairs) -> Pairs
    decreases tags.len(),
{
    if tags.len() == 0 {
        tags
    } else if bookkeeping_key(tags.last().0) {
        stripped(tags.drop_last())
    } else {
        stripped(tags.drop_last()).push(tags.last())
    }
}

/// What is left of tags without the bookkeeping keys: nothing at all where
/// no other key was there.
pub open spec fn strip_result(tags: Option<Pairs>) -> Option<Pairs> {
    match tags {
        None => None,
        Some(t) => if stripped(t).len() == 0 {
            None
        } else {
            Some(stripped(t))
        },
    }
}

/// The view of an optional reference to a map.
pub open spec fn ref_opt_entries(m: Option<&TagMap>) -> Option<Pairs> {
    match m {
        Some(t) => Some(entries(*t)),
        None => None,
    }
}

proof fn lemma_stripped_from(tags: Pairs, key: Seq<char>)
    requires
        forall|i: int| 0 <= i < tags.len() ==> (#[trigger] tags[i]).0 != key,
    ensures
        forall|i: int| 0 <= i < stripped(tags).len() ==> (#[trigger] stripped(tags)[i]).0 != key,
    decreases tags.len(),
{
    if tags.len() > 0 {
        let t = tags.drop_last();
        assert forall|i: int| 0 <= i < t.len() implies (#[trigger] t[i]).0 != key by {
            assert(tags[i].0 != key);
        }
        lemma_stripped_from(t, key);
        assert(tags[tags.len() - 1].0 != key);
        assert forall|i: int| 0 <= i < stripped(tags).len() implies (#[trigger] stripped(
            tags,
        )[i]).0 != key by {
            if i < stripped(t).len() {
                assert(stripped(tags)[i] == stripped(t)[i]);
            } else {
                assert(stripped(tags)[i] == tags.last());
            }
        }
    }
}

/// Remove the bookkeeping keys from `tags`; `None` when nothing is left.
pub fn strip_gc_bookkeeping(tags: Option<&TagMap>) -> (r: Option<TagMap>)
    ensures
        opt_entries(r) == strip_result(ref_opt_entries(tags)),
{
    match tags {
        None => None,
        Some(t) => {
            let n = tags_len(t);
            let ghost all = entries(*t);
            let mut out = tags_new();
            let mut i: usize = 0;
            assert(all.take(0) =~= Seq::<(Seq<char>, Seq<char>)>::empty());
            while i < n
                invariant
                    i <= n,
                    n == all.len(),
                    all == entries(*t),
                    entries(out) == stripped(all.take(i as int)),
                decreases n - i,
            {
                assert(all.take(i + 1).drop_last() =~= all.take(i as int));
                match tags_at(t, i) {
                    Some((k, v)) => {
                        if !is_bookkeeping_key(k.as_str()) {
                            proof {
                                lemma_key_index(all, k@, 0);
                                assert forall|j: int| 0 <= j < all.take(i as int).len() implies (
                                #[trigger] all.take(i as int)[j]).0 != k@ by {
                                    assert(all[j].0 != k@);
                                }
                                lemma_stripped_from(all.take(i as int), k@);
                                lemma_key_absent(entries(out), k@);
                            }
                            tags_insert(&mut out, k.clone(), v.clone());
                        }
                    },
                    None => {
                        assert(false);
                    },
                }
                i += 1;
            }
            assert(all.take(n as int) =~= all);
            if tags_len(&out) == 0 {
                None
            } else {
                Some(out)
            }
        },
    }
}

/// Stripping leaves no bookkeeping key and drops no other.
pub proof fn law_strip_removes_exactly_bookkeeping(tags: Pairs)
    ensures
        forall|i: int|
            0 <= i < stripped(tags).len() ==> !bookkeeping_key((#[trigger] stripped(tags)[i]).0),
        forall|i: int|
            0 <= i < tags.len() && !bookkeeping_key((#[trigger] tags[i]).0) ==> stripped(
                tags,
            ).contains(tags[i]),
    decreases tags.len(),
{
    if tags.len() > 0 {
        let t = tags.drop_last();
        law_strip_removes_exactly_bookkeeping(t);
        assert forall|i: int| 0 <= i < tags.len() && !bookkeeping_key(
            (#[trigger] tags[i]).0,
        ) implies stripped(tags).contains(tags[i]) by {
            if i < t.len() {
                assert(t[i] == tags[i]);
                assert(stripped(t).contains(t[i]));
                let k = choose|k: int| 0 <= k < stripped(t).len() && stripped(t)[k] == t[i];
                assert(stripped(tags)[k] == tags[i]);
            } else {
                assert(stripped(tags)[stripped(tags).len() - 1] == tags[i]);
            }
        }
    }
}

/// Which keys are reserved: the three of a manifest, the strategy, and all that
/// begin with a colon.
pub proof fn law_reserved_keys(rest: Seq<char>, key: Seq<char>)
    ensures
        reserved_key("ptyfile"@),
        reserved_key("ptyfile.session"@),
        reserved_key("ptyfile.tags"@),
        reserved_key("strategy"@),
        reserved_key(seq![':'] + rest),
        key.len() > 0 && key[0] != ':' && key != "ptyfile"@ && key != "ptyfile.session"@ && key
            != "ptyfile.tags"@ && key != "strategy"@ ==> !reserved_key(key),
        !reserved_key(Seq::empty()),
{
    reveal_strlit(":");
    assert(":"@ =~= seq![':']);
    let k = seq![':'] + rest;
    crate::text::law_begin_and_end(k, ":"@, rest);
    assert(k.take(1) =~= ":"@);
    reveal_strlit("ptyfile");
    reveal_strlit("ptyfile.session");
    reveal_strlit("ptyfile.tags");
    reveal_strlit("strategy");
    assert("ptyfile"@.len() == 7 && "ptyfile.session"@.len() == 15 && "ptyfile.tags"@.len() == 12
        && "strategy"@.len() == 8);
    if key.len() > 0 && begins(key, ":"@) {
        assert(key.take(1)[0] == key[0]);
    }
}

/// Tags match a filter when they have every pair of it.
pub proof fn law_matching_tags(tags: Pairs, key: Seq<char>, value: Seq<char>)
    ensures
        matches_all(tags, seq![(key, value)]) <==> lookup(tags, key) == Some(value),
{
    if lookup(tags, key) == Some(value) {
        assert(forall|i: int|
            0 <= i < seq![(key, value)].len() ==> (#[trigger] seq![(key, value)][i]).0 == key);
    }
    if matches_all(tags, seq![(key, value)]) {
        assert(seq![(key, value)][0] == (key, value));
    }
}

/// A pair is cut at its first equals sign.
pub proof fn law_parts_of_a_pair(key: Seq<char>, value: Seq<char>)
    requires
        !key.contains('='),
    ensures
        pair_key(key + seq!['='] + value) == key,
        pair_value(key + seq!['='] + value) == value,
        index_from(key + seq!['='] + value, '=', 0) == key.len(),
        index_from(key, '=', 0) == key.len(),
{
    let kv = key + seq!['='] + value;
    crate::text::law_finding_a_character(kv, '=', 0);
    crate::text::law_finding_a_character(key, '=', 0);
    let i = index_from(kv, '=', 0);
    assert(kv[key.len() as int] == '=');
    if i < key.len() {
        assert(kv[i] == key[i]);
        assert(key.contains('='));
    }
    let j = index_from(key, '=', 0);
    if j < key.len() {
        assert(key.contains('='));
    }
    assert(kv.take(i) =~= key);
    assert(kv.skip(i + 1) =~= value);
}

/// How filters are taken out of the arguments: `--filter-tag` and the pair
/// behind it go, everything else stays in order, and a flag without a pair
/// is an error.
pub proof fn law_filters_are_taken_out(
    arg: Seq<char>,
    key: Seq<char>,
    value: Seq<char>,
    rest: Seq<Seq<char>>,
    before: Pairs,
)
    requires
        arg != "--filter-tag"@,
        !key.contains('='),
    ensures
        unfiltered(Seq::empty()).len() == 0,
        filters(Seq::empty(), before) == before,
        filters_ok(Seq::empty()),
        unfiltered(seq![arg] + rest) == seq![arg] + unfiltered(rest),
        filters(seq![arg] + rest, before) == filters(rest, before),
        filters_ok(seq![arg] + rest) == filters_ok(rest),
        ({
            let args = seq!["--filter-tag"@, key + seq!['='] + value] + rest;
            &&& unfiltered(args) == unfiltered(rest)
            &&& filters(args, before) == filters(rest, put(before, key, value))
            &&& filters_ok(args) == filters_ok(rest)
        }),
        !filters_ok(seq!["--filter-tag"@, key] + rest),
        !filters_ok(seq!["--filter-tag"@]),
{
    let a = seq![arg] + rest;
    assert(a[0] == arg);
    assert(a.skip(1) =~= rest);
    let kv = key + seq!['='] + value;
    law_parts_of_a_pair(key, value);
    let b = seq!["--filter-tag"@, kv] + rest;
    assert(b[0] == "--filter-tag"@ && b[1] == kv);
    assert(b.skip(2) =~= rest);
    let c = seq!["--filter-tag"@, key] + rest;
    assert(c[0] == "--filter-tag"@ && c[1] == key);
    let d = seq!["--filter-tag"@];
    assert(d[0] == "--filter-tag"@);
}

/// Which words mean no, and that a tag `keep` with any other value keeps.
pub proof fn law_words_for_no(v: Seq<char>, tags: Pairs)
    ensures
        falsey(v) <==> v == "false"@ || v == "0"@ || v == "no"@ || v == "off"@,
        keeps(tags) <==> lookup(tags, "keep"@) is Some && !falsey(
            lower_text(js_trimmed(lookup(tags, "keep"@)->0)),
        ),
        DEFAULT_KEEP_MAX_AGE_MS == 7 * 24 * 60 * 60 * 1000,
{
}

/// Which sessions are reaped at exit: none that is kept, every ephemeral one
/// else, none that is permanent, and the others as the default says.
pub proof fn law_who_is_reaped(tags: Pairs, default_reap: bool)
    ensures
        !keeps(tags) ==> reaps(tags, true, default_reap),
        !keeps(tags) && lookup(tags, "strategy"@) == Some("permanent"@) ==> !reaps(
            tags,
            false,
            default_reap,
        ),
        !keeps(tags) && lookup(tags, "strategy"@) != Some("permanent"@) ==> reaps(
            tags,
            false,
            default_reap,
        ) == default_reap,
{
}

/// Where the age of a session counts from: its exit, or its creation where it
/// has none.
pub proof fn law_age_of_a_session(v: MetaView)
    ensures
        v.exited_at is None ==> age_anchor(v) == v.created_at,
        v.exited_at is Some && v.exited_at->0.len() == 0 ==> age_anchor(v) == v.created_at,
        v.exited_at is Some && v.exited_at->0.len() > 0 ==> age_anchor(v) == v.exited_at->0,
{
}

/// Which keys a manual restart strips, and that the others stay in order.
pub proof fn law_stripped_keys(tags: Pairs, key: Seq<char>, value: Seq<char>)
    ensures
        bookkeeping_key(key) <==> key == "strategy.status"@ || key
            == "strategy.consecutive-fast-fails"@ || key == "strategy.last-respawn-at"@ || key
            == "strategy.command-hash"@,
        bookkeeping_key(key) ==> stripped(tags.push((key, value))) == stripped(tags),
        !bookkeeping_key(key) ==> stripped(tags.push((key, value))) == stripped(tags).push(
            (key, value),
        ),
        stripped(Seq::empty()).len() == 0,
        strip_result(None) is None,
        stripped(tags).len() == 0 ==> strip_result(Some(tags)) is None,
        stripped(tags).len() > 0 ==> strip_result(Some(tags)) == Some(stripped(tags)),
{
    assert(tags.push((key, value)).drop_last() =~= tags);
    assert(tags.push((key, value)).last() == (key, value));
}

/// Tags that are given are the ones looked at.
pub proof fn law_given_tags(t: &TagMap)
    ensures
        ref_opt_entries(Some(t)) == Some(entries(*t)),
        ref_opt_entries(None) is None,
        ref_entries(Some(t)) == entries(*t),
        ref_entries(None).len() == 0,
{
}

} // verus!
