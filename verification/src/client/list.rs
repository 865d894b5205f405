//! A registry listing with the clients that are attached to each session.

use crate::protocol::AttachedClient;
use crate::registry::list::SessionInfo;
use vstd::prelude::*;

verus! {

/// How to ask running daemons for their attached clients.
#[derive(Debug, Clone, Copy, PartialEq, Eq, Structural)]
pub struct ClientQuery {
    /// One deadline for the whole listing, in milliseconds.
    pub deadline: u64,
    /// Sockets queried at once; a stalled daemon holds one worker only.
    pub concurrency: usize,
}

impl Default for ClientQuery {
    fn default() -> (r: ClientQuery)
        ensures
            r == (ClientQuery { deadline: 500, concurrency: 16 }),
    {
        ClientQuery { deadline: 500, concurrency: 16 }
    }
}

/// A running session's attached clients as far as a listing knows.
#[derive(Debug, Clone, PartialEq, Eq)]
pub enum ClientSet {
    /// No answer within the deadline, or the daemon does not know the request.
    /// Never an empty set.
    Unknown,
    Known(Vec<AttachedClient>),
}

/// The clients, or `None` when unknown.
pub open spec fn known_clients(s: ClientSet) -> Option<Seq<AttachedClient>> {
    match s {
        ClientSet::Unknown => None,
        ClientSet::Known(v) => Some(v@),
    }
}

impl ClientSet {
    /// The clients, or `None` when unknown.
    pub fn known(&self) -> (r: Option<&[AttachedClient]>)
        ensures
            match r {
                Some(v) => known_clients(*self) == Some(v@),
                None => known_clients(*self) is None,
            },
    {
        match self {
            ClientSet::Unknown => None,
            ClientSet::Known(clients) => Some(clients.as_slice()),
        }
    }
}

/// One listed session.
#[derive(Debug, Clone)]
pub struct ListedSession {
    pub info: SessionInfo,
    /// `None` when not requested or the session is not running.
    pub clients: Option<ClientSet>,
}

/// How many sessions run.
pub open spec fn running(v: Seq<SessionInfo>) -> nat
    decreases v.len(),
{
    if v.len() == 0 {
        0
    } else {
        running(v.drop_last()) + if v.last().status is Running {
            1nat
        } else {
            0nat
        }
    }
}

/// How many workers query the daemons: one for each running session, up to the
/// bound, which is at least one.
pub fn workers(sessions: &[SessionInfo], query: &ClientQuery) -> (r: usize)
    ensures
        ({
            let bound: nat = if query.concurrency == 0 {
                1
            } else {
                query.concurrency as nat
            };
            r == (if running(sessions@) < bound {
                running(sessions@)
            } else {
                bound
            })
        }),
{
    let mut n: usize = 0;
    let mut i: usize = 0;
    assert(sessions@.take(0) =~= Seq::<SessionInfo>::empty());
    while i < sessions.len()
        invariant
            i <= sessions@.len(),
            n <= i,
            n == running(sessions@.take(i as int)),
        decreases sessions.len() - i,
    {
        assert(sessions@.take(i + 1).drop_last() =~= sessions@.take(i as int));
        if sessions[i].is_running() {
            n += 1;
        }
        i += 1;
    }
    assert(sessions@.take(sessions@.len() as int) =~= sessions@);
    let bound: usize = if query.concurrency == 0 {
        1
    } else {
        query.concurrency
    };
    if n < bound {
        n
    } else {
        bound
    }
}

/// Whether a worker asks the daemon of a session: it must run, and there must
/// be time left.
pub fn is_contacted(session: &SessionInfo, remaining_us: u64) -> (r: bool)
    ensures
        r == (session.status is Running && remaining_us > 0),
{
    session.is_running() && remaining_us > 0
}

/// Attached clients for each session, index-aligned, from what the workers
/// found. Sessions without an answer are unknown.
pub fn attached_clients(count: usize, found: Vec<(usize, Vec<AttachedClient>)>) -> (r: Vec<
    ClientSet,
>)
    requires
        forall|k: int| 0 <= k < found@.len() ==> (#[trigger] found@[k]).0 < count,
    ensures
        r@.len() == count,
        forall|i: int|
            0 <= i < count ==> (match last_answer(found@, i) {
                Some(clients) => #[trigger] r@[i] == ClientSet::Known(clients),
                None => r@[i] is Unknown,
            }),
{
    let ghost all = found@;
    let mut rest = found;
    let mut out: Vec<ClientSet> = Vec::new();
    let mut i: usize = 0;
    while i < count
        invariant
            i <= count,
            out@.len() == i,
            forall|j: int| 0 <= j < i ==> #[trigger] out@[j] is Unknown,
        decreases count - i,
    {
        out.push(ClientSet::Unknown);
        i += 1;
    }
    let n = rest.len();
    let mut k: usize = 0;
    assert(all.take(0) =~= Seq::<(usize, Vec<AttachedClient>)>::empty());
    while k < n
        invariant
            k <= n,
            n == all.len(),
            rest@ == all.skip(k as int),
            out@.len() == count,
            forall|j: int| 0 <= j < all.len() ==> (#[trigger] all[j]).0 < count,
            forall|j: int|
                0 <= j < count ==> (match last_answer(all.take(k as int), j) {
                    Some(clients) => #[trigger] out@[j] == ClientSet::Known(clients),
                    None => out@[j] is Unknown,
                }),
        decreases n - k,
    {
        assert(all.take(k + 1).drop_last() =~= all.take(k as int));
        let (index, clients) = rest.remove(0);
        assert((index, clients) == all[k as int]);
        assert(rest@ =~= all.skip(k + 1));
        out.set(index, ClientSet::Known(clients));
        k += 1;
    }
    assert(all.take(n as int) =~= all);
    out
}

/// The last answer that was found for a session.
pub open spec fn last_answer(found: Seq<(usize, Vec<AttachedClient>)>, i: int) -> Option<
    Vec<AttachedClient>,
>
    decreases found.len(),
{
    if found.len() == 0 {
        None
    } else if found.last().0 == i {
        Some(found.last().1)
    } else {
        last_answer(found.drop_last(), i)
    }
}

/// Put sessions and their clients together; a session that is not running
/// shows no clients.
pub fn list(sessions: Vec<SessionInfo>, clients: Option<Vec<ClientSet>>) -> (r: Vec<ListedSession>)
    requires
        clients matches Some(c) ==> c@.len() == sessions@.len(),
    ensures
        r@.len() == sessions@.len(),
        forall|i: int|
            0 <= i < r@.len() ==> (#[trigger] r@[i]).info == sessions@[i] && r@[i].clients == (
            match clients {
                Some(c) if sessions@[i].status is Running => Some(c@[i]),
                _ => None,
            }),
{
    let ghost all = sessions@;
    let ghost asked = clients;
    let wanted = clients.is_some();
    let mut sets: Vec<ClientSet> = match clients {
        Some(c) => c,
        None => Vec::new(),
    };
    let ghost known = sets@;
    let mut rest = sessions;
    let n = rest.len();
    let mut out: Vec<ListedSession> = Vec::new();
    let mut i: usize = 0;
    while i < n
        invariant
            i <= n,
            n == all.len(),
            rest@ == all.skip(i as int),
            wanted ==> sets@ == known.skip(i as int) && known.len() == n,
            wanted == asked is Some,
            asked matches Some(c) ==> c@ == known,
            out@.len() == i,
            forall|j: int|
                0 <= j < i ==> (#[trigger] out@[j]).info == all[j] && out@[j].clients == (
                match asked {
                    Some(c) if all[j].status is Running => Some(c@[j]),
                    _ => None,
                }),
        decreases n - i,
    {
        let info = rest.remove(0);
        assert(info == all[i as int]);
        assert(rest@ =~= all.skip(i + 1));
        let mut set: Option<ClientSet> = None;
        if wanted {
            let s = sets.remove(0);
            assert(s == known[i as int]);
            assert(sets@ =~= known.skip(i + 1));
            if info.is_running() {
                set = Some(s);
            }
        }
        out.push(ListedSession { info, clients: set });
        i += 1;
    }
    out
}

/// How many sessions run, and what is known of a session's clients.
pub proof fn law_running_sessions(v: Seq<SessionInfo>, s: SessionInfo, c: Vec<AttachedClient>)
    ensures
        running(Seq::empty()) == 0,
        s.status is Running ==> running(v.push(s)) == running(v) + 1,
        !(s.status is Running) ==> running(v.push(s)) == running(v),
        known_clients(ClientSet::Known(c)) == Some(c@),
        known_clients(ClientSet::Unknown) is None,
{
    assert(v.push(s).drop_last() =~= v);
    assert(v.push(s).last() == s);
}

/// Of several answers for a session the last one counts.
pub proof fn law_last_answer_counts(
    found: Seq<(usize, Vec<AttachedClient>)>,
    k: usize,
    clients: Vec<AttachedClient>,
    i: int,
)
    ensures
        last_answer(Seq::empty(), i) is None,
        last_answer(found.push((k, clients)), k as int) == Some(clients),
        i != k ==> last_answer(found.push((k, clients)), i) == last_answer(found, i),
{
    assert(found.push((k, clients)).drop_last() =~= found);
    assert(found.push((k, clients)).last() == (k, clients));
}

} // verus!
