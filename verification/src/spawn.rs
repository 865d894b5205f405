//! What a spawner settles before a daemon starts: the command path.

use crate::paths::{absolute, is_absolute, normal, normalize, AboveTop};
use crate::registry::root::{join_path, under};
use crate::text::{
    lemma_views_push, pieces, slice_contains, split_on, to_chars, views,
};
use vstd::prelude::*;

verus! {

/// Where to look for a command: the first candidate that passes is taken. A
/// candidate passes when it is an executable regular file, or, for a path,
/// when it is there.
#[derive(Debug)]
pub struct CommandSearch {
    pub candidates: Vec<String>,
    pub executable: bool,
}

/// The places of a bare name along a search path.
pub open spec fn places(cmd: Seq<char>, dirs: Seq<Seq<char>>) -> Seq<Seq<char>> {
    Seq::new(
        dirs.len(),
        |i: int|
            if dirs[i].len() == 0 {
                cmd
            } else {
                under(dirs[i], cmd)
            },
    )
}

/// The candidates for a command.
pub open spec fn candidates(
    cmd: Seq<char>,
    cwd: Option<Seq<char>>,
    path: Option<Seq<char>>,
) -> Seq<Seq<char>> {
    if absolute(cmd) {
        seq![cmd]
    } else if cmd.contains('/') {
        match cwd {
            Some(dir) => seq![normal(under(dir, cmd), AboveTop::Drop)],
            None => Seq::empty(),
        }
    } else if cmd.len() == 0 {
        Seq::empty()
    } else {
        match path {
            Some(dirs) => places(cmd, pieces(dirs, seq![':'])),
            None => Seq::empty(),
        }
    }
}

/// The view of an optional text.
pub open spec fn str_opt(v: Option<&str>) -> Option<Seq<char>> {
    match v {
        Some(s) => Some(s@),
        None => None,
    }
}

/// The places of a bare name along the search path.
fn which(cmd: &str, path: &str) -> (r: Vec<String>)
    ensures
        views(r@) == places(cmd@, pieces(path@, seq![':'])),
{
    let chars = to_chars(path);
    let colon: [char; 1] = [':'];
    assert(colon@ =~= seq![':']);
    let dirs = split_on(chars.as_slice(), &colon);
    let ghost want = places(cmd@, pieces(path@, seq![':']));
    let mut out: Vec<String> = Vec::new();
    let mut i: usize = 0;
    assert(views(out@) =~= want.take(0));
    while i < dirs.len()
        invariant
            i <= dirs@.len(),
            views(dirs@) == pieces(path@, seq![':']),
            want == places(cmd@, pieces(path@, seq![':'])),
            views(out@) == want.take(i as int),
        decreases dirs.len() - i,
    {
        let dir = dirs[i].as_str();
        let place = if dir.is_empty() {
            cmd.to_owned()
        } else {
            join_path(dir, cmd)
        };
        let ghost before = out@;
        assert(views(dirs@)[i as int] == dir@);
        assert(place@ == want[i as int]);
        out.push(place);
        proof {
            lemma_views_push(before, place);
            assert(want.take(i + 1) =~= want.take(i as int).push(want[i as int]));
        }
        i += 1;
    }
    assert(want.take(dirs@.len() as int) =~= want);
    out
}

/// Where to look for a command: an absolute path as it stands, a path with a
/// slash against the current directory, a bare name along the search path.
pub fn command_search(cmd: &str, cwd: Option<&str>, path: Option<&str>) -> (r: CommandSearch)
    ensures
        views(r.candidates@) == candidates(cmd@, str_opt(cwd), str_opt(path)),
        r.executable == (!absolute(cmd@) && !cmd@.contains('/')),
{
    let mut list: Vec<String> = Vec::new();
    assert(views(list@) =~= Seq::<Seq<char>>::empty());
    if is_absolute(cmd) {
        list.push(cmd.to_owned());
        assert(views(list@) =~= seq![cmd@]);
        return CommandSearch { candidates: list, executable: false };
    }
    let chars = to_chars(cmd);
    if slice_contains(chars.as_slice(), '/') {
        if let Some(dir) = cwd {
            let joined_path = join_path(dir, cmd);
            list.push(normalize(joined_path.as_str(), AboveTop::Drop));
            assert(views(list@) =~= seq![normal(under(dir@, cmd@), AboveTop::Drop)]);
        }
        return CommandSearch { candidates: list, executable: false };
    }
    if !cmd.is_empty() {
        if let Some(dirs) = path {
            list = which(cmd, dirs);
        }
    }
    CommandSearch { candidates: list, executable: true }
}

/// The first that passes.
pub open spec fn first_pass(passes: Seq<bool>, from: int) -> int
    decreases passes.len() - from,
{
    if 0 <= from < passes.len() && !passes[from] {
        first_pass(passes, from + 1)
    } else {
        from
    }
}

/// The path of a command: the first candidate that passes.
pub fn resolve_command(cmd: &str, search: &CommandSearch, passes: &[bool]) -> (r: Result<
    String,
    String,
>)
    requires
        passes@.len() == search.candidates@.len(),
    ensures
        ({
            let i = first_pass(passes@, 0);
            match r {
                Ok(path) => i < passes@.len() && path@ == search.candidates@[i]@,
                Err(e) => i >= passes@.len() && e@ == "Command not found: "@ + cmd@,
            }
        }),
{
    let mut i: usize = 0;
    while i < passes.len()
        invariant
            i <= passes@.len(),
            passes@.len() == search.candidates@.len(),
            first_pass(passes@, i as int) == first_pass(passes@, 0),
        decreases passes.len() - i,
    {
        if passes[i] {
            return Ok(search.candidates[i].clone());
        }
        i += 1;
    }
    let mut m = "Command not found: ".to_owned();
    m.append(cmd);
    Err(m)
}

/// A path with a slash leads to at most one place, whatever the search path.
pub proof fn law_a_path_is_not_looked_up(
    cmd: Seq<char>,
    cwd: Option<Seq<char>>,
    path: Option<Seq<char>>,
    other: Option<Seq<char>>,
)
    requires
        cmd.contains('/'),
    ensures
        candidates(cmd, cwd, path) == candidates(cmd, cwd, other),
        candidates(cmd, cwd, path).len() <= 1,
{
}

/// Where a command is looked for: an absolute path as it stands, a path with a
/// slash in the current directory, and a bare name in each directory of the
/// search path, in its order.
pub proof fn law_where_a_command_is_looked_for(
    cmd: Seq<char>,
    cwd: Seq<char>,
    path: Seq<char>,
    i: int,
)
    ensures
        cmd.len() > 0 && cmd[0] == '/' ==> candidates(cmd, Some(cwd), Some(path)) == seq![cmd],
        cmd.len() > 0 && cmd[0] != '/' && cmd.contains('/') ==> candidates(
            cmd,
            Some(cwd),
            Some(path),
        ) == seq![normal(under(cwd, cmd), AboveTop::Drop)],
        cmd.len() > 0 && !cmd.contains('/') ==> candidates(cmd, Some(cwd), Some(path)).len()
            == pieces(path, seq![':']).len(),
        cmd.len() > 0 && !cmd.contains('/') && 0 <= i < pieces(path, seq![':']).len()
            ==> candidates(cmd, Some(cwd), Some(path))[i] == (if pieces(path, seq![':'])[i].len()
            == 0 {
            cmd
        } else {
            under(pieces(path, seq![':'])[i], cmd)
        }),
        cmd.len() == 0 ==> candidates(cmd, Some(cwd), Some(path)).len() == 0,
{
    crate::paths::law_absolute_paths(cmd, AboveTop::Keep);
    if cmd.len() > 0 && !cmd.contains('/') {
        assert(cmd[0] != '/');
    }
}

/// The first that passes is taken, and none in front of it passed.
pub proof fn law_first_that_passes(passes: Seq<bool>)
    ensures
        0 <= first_pass(passes, 0) <= passes.len(),
        first_pass(passes, 0) < passes.len() ==> passes[first_pass(passes, 0)],
        forall|k: int| 0 <= k < first_pass(passes, 0) ==> !(#[trigger] passes[k]),
{
    lemma_first_pass(passes, 0);
}

proof fn lemma_first_pass(passes: Seq<bool>, from: int)
    requires
        0 <= from <= passes.len(),
    ensures
        from <= first_pass(passes, from) <= passes.len(),
        first_pass(passes, from) < passes.len() ==> passes[first_pass(passes, from)],
        forall|k: int| from <= k < first_pass(passes, from) ==> !(#[trigger] passes[k]),
    decreases passes.len() - from,
{
    if from < passes.len() && !passes[from] {
        lemma_first_pass(passes, from + 1);
    }
}

} // verus!
