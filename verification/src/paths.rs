//! Paths as texts: what they are made of, and how `.` and `..` are resolved
//! without looking at the disk.

use crate::text::{begins, join, joined, lemma_views_push, pieces, split_on, starts_with, str_eq, to_chars, views};
use vstd::prelude::*;

verus! {

/// Whether a path starts at the root.
pub open spec fn absolute(p: Seq<char>) -> bool {
    begins(p, "/"@)
}

/// Decides `absolute`.
pub fn is_absolute(p: &str) -> (r: bool)
    ensures
        r == absolute(p@),
{
    starts_with(p, "/")
}

/// How a `..` at the top is treated: kept, or dropped.
#[derive(Debug, Clone, Copy, PartialEq, Eq, Structural)]
pub enum AboveTop {
    Keep,
    Drop,
}

/// The parts that are left when one more part is taken in.
pub open spec fn step_into(parts: Seq<Seq<char>>, part: Seq<char>, top: AboveTop) -> Seq<Seq<char>> {
    if part.len() == 0 || part == "."@ {
        parts
    } else if part == ".."@ {
        if parts.len() > 0 && parts.last() != ".."@ {
            parts.drop_last()
        } else if top is Keep {
            parts.push(part)
        } else {
            parts
        }
    } else {
        parts.push(part)
    }
}

/// The parts that are left of a list of parts.
pub open spec fn walked(list: Seq<Seq<char>>, top: AboveTop) -> Seq<Seq<char>>
    decreases list.len(),
{
    if list.len() == 0 {
        Seq::empty()
    } else {
        step_into(walked(list.drop_last(), top), list.last(), top)
    }
}

/// The path without `.`, without empty parts, and with each `..` resolved
/// against the part in front of it.
pub open spec fn normal(p: Seq<char>, top: AboveTop) -> Seq<char> {
    (if absolute(p) {
        "/"@
    } else {
        Seq::empty()
    }) + joined(walked(pieces(p, seq!['/']), top), "/"@)
}

/// Computes `normal`.
pub fn normalize(p: &str, top: AboveTop) -> (r: String)
    ensures
        r@ == normal(p@, top),
{
    let chars = to_chars(p);
    let slash: [char; 1] = ['/'];
    assert(slash@ =~= seq!['/']);
    let list = split_on(chars.as_slice(), &slash);
    let ghost all = views(list@);
    let mut parts: Vec<String> = Vec::new();
    let mut i: usize = 0;
    assert(all.take(0) =~= Seq::<Seq<char>>::empty());
    assert(views(parts@) =~= walked(all.take(0), top));
    while i < list.len()
        invariant
            i <= list@.len(),
            all == views(list@),
            views(parts@) == walked(all.take(i as int), top),
        decreases list.len() - i,
    {
        assert(all.take(i + 1).drop_last() =~= all.take(i as int));
        assert(all.take(i + 1).last() == list@[i as int]@);
        let part = list[i].as_str();
        let ghost before = parts@;
        if part.is_empty() || str_eq(part, ".") {
        } else if str_eq(part, "..") {
            if parts.len() > 0 && !str_eq(parts[parts.len() - 1].as_str(), "..") {
                assert(views(before).last() == before.last()@);
                parts.pop();
                assert(views(parts@) =~= views(before).drop_last());
            } else {
                assert(before.len() > 0 ==> views(before).last() == before.last()@);
                if top == AboveTop::Keep {
                    parts.push(part.to_owned());
                    proof {
                        lemma_views_push(before, parts@.last());
                        assert(parts@ =~= before.push(parts@.last()));
                    }
                }
            }
        } else {
            parts.push(part.to_owned());
            proof {
                lemma_views_push(before, parts@.last());
                assert(parts@ =~= before.push(parts@.last()));
            }
        }
        i += 1;
    }
    assert(all.take(list@.len() as int) =~= all);
    let rest = join(parts.as_slice(), "/");
    let mut out = String::new();
    if is_absolute(p) {
        out = "/".to_owned();
    }
    out.append(rest.as_str());
    out
}

/// Parts with nothing left to resolve: no `.`, no empty part, and `..` only at
/// the top, where it may be kept at all.
pub open spec fn resolved(parts: Seq<Seq<char>>, top: AboveTop) -> bool {
    forall|i: int|
        #![trigger parts[i]]
        0 <= i < parts.len() ==> parts[i].len() > 0 && parts[i] != "."@ && (parts[i] == ".."@ ==> top
            is Keep && (i > 0 ==> parts[i - 1] == ".."@))
}

/// Walking resolves everything.
pub proof fn law_walked_is_resolved(list: Seq<Seq<char>>, top: AboveTop)
    ensures
        resolved(walked(list, top), top),
    decreases list.len(),
{
    if list.len() > 0 {
        law_walked_is_resolved(list.drop_last(), top);
        let before = walked(list.drop_last(), top);
        let after = walked(list, top);
        assert forall|i: int|
            #![trigger after[i]]
            0 <= i < after.len() implies after[i].len() > 0 && after[i] != "."@ && (after[i] == ".."@
            ==> top is Keep && (i > 0 ==> after[i - 1] == ".."@)) by {
            if i < before.len() {
                assert(after[i] == before[i]);
                if i > 0 {
                    assert(after[i - 1] == before[i - 1]);
                }
            }
        }
    }
}

/// Resolved parts stay as they are when they are walked again.
pub proof fn law_resolved_is_kept(parts: Seq<Seq<char>>, top: AboveTop)
    requires
        resolved(parts, top),
    ensures
        walked(parts, top) == parts,
    decreases parts.len(),
{
    if parts.len() > 0 {
        let before = parts.drop_last();
        assert forall|i: int|
            #![trigger before[i]]
            0 <= i < before.len() implies before[i].len() > 0 && before[i] != "."@ && (before[i]
            == ".."@ ==> top is Keep && (i > 0 ==> before[i - 1] == ".."@)) by {
            assert(before[i] == parts[i]);
            if i > 0 {
                assert(before[i - 1] == parts[i - 1]);
            }
        }
        law_resolved_is_kept(before, top);
        assert(parts[parts.len() - 1] == parts.last());
        if before.len() > 0 {
            assert(before.last() == parts[parts.len() - 2]);
        }
        assert(before.push(parts.last()) =~= parts);
    }
}

/// What each part does to a path: an empty one and `.` do nothing, a name goes
/// down, and `..` goes up again, past the name in front of it.
pub proof fn law_parts_of_a_path(list: Seq<Seq<char>>, name: Seq<char>, top: AboveTop)
    requires
        name.len() > 0,
        name != seq!['.'],
        name != seq!['.', '.'],
    ensures
        walked(list.push(Seq::empty()), top) == walked(list, top),
        walked(list.push(seq!['.']), top) == walked(list, top),
        walked(list.push(name), top) == walked(list, top).push(name),
        walked(list.push(name).push(seq!['.', '.']), top) == walked(list, top),
        walked(list, AboveTop::Drop).len() == 0 ==> walked(
            list.push(seq!['.', '.']),
            AboveTop::Drop,
        ).len() == 0,
        walked(list, AboveTop::Keep).len() == 0 ==> walked(
            list.push(seq!['.', '.']),
            AboveTop::Keep,
        ) == seq![seq!['.', '.']],
{
    reveal_strlit(".");
    reveal_strlit("..");
    assert("."@ =~= seq!['.']);
    assert(".."@ =~= seq!['.', '.']);
    let none = Seq::<char>::empty();
    assert(list.push(none).drop_last() =~= list);
    assert(list.push("."@).drop_last() =~= list);
    assert(list.push(name).drop_last() =~= list);
    assert(list.push(".."@).drop_last() =~= list);
    reveal_with_fuel(walked, 3);
    let two = list.push(name).push(".."@);
    assert(two.drop_last() =~= list.push(name));
    let w = walked(list, top).push(name);
    assert(w.last() == name);
    assert(w.drop_last() =~= walked(list, top));
    assert(walked(list.push(name), top) == w);
    assert(two.last() == ".."@);
    assert(walked(two, top) =~= walked(list, top));
    if walked(list, AboveTop::Keep).len() == 0 {
        assert(walked(list.push(".."@), AboveTop::Keep) =~= seq![".."@]);
    }
}

/// A path that starts at the root is one with a slash in front, and stays so.
pub proof fn law_absolute_paths(p: Seq<char>, top: AboveTop)
    ensures
        absolute(p) <==> p.len() > 0 && p[0] == '/',
        absolute(p) ==> normal(p, top).len() > 0 && normal(p, top)[0] == '/',
{
    reveal_strlit("/");
    assert("/"@ =~= seq!['/']);
    if p.len() > 0 {
        assert(p.subrange(0, 1)[0] == p[0]);
        if p[0] == '/' {
            assert(p.subrange(0, 1) =~= "/"@);
        }
    }
}

/// A resolved path is the parts that are left of its parts, with slashes
/// between them, behind one where it starts at the root.
pub proof fn law_resolved_paths(p: Seq<char>, top: AboveTop)
    ensures
        absolute(p) ==> normal(p, top) == seq!['/'] + joined(
            walked(pieces(p, seq!['/']), top),
            seq!['/'],
        ),
        !absolute(p) ==> normal(p, top) == joined(walked(pieces(p, seq!['/']), top), seq!['/']),
{
    reveal_strlit("/");
    assert("/"@ =~= seq!['/']);
    let rest = joined(walked(pieces(p, seq!['/']), top), "/"@);
    assert(Seq::<char>::empty() + rest =~= rest);
}

} // verus!
