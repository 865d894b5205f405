//! File locks: a claim that replaces nothing, the holder's pid in decimal, one
//! steal of a stale lock, and release by unlinking.
//!
//! Two locks per session: `<name>.lock` (creation and metadata) and
//! `<name>.events.lock` (event log). Whenever both are taken, the event lock
//! comes first.
//!
//! A stale lock is stolen under an advisory lock on the inode that was
//! inspected, and only while the path still names that inode, so that a
//! delayed stealer cannot remove a newer owner's lock.

use crate::text::{
    char_is_digit, dec, digits_end, digits_value, is_digit, lemma_digits_end, lemma_number_dec,
    number, space, spaceless_start, to_chars, trim, trim_front, trimmed, slice_of,
};
use vstd::prelude::*;

verus! {

/// The text shown when the event lock is held.
pub open spec fn event_busy_text(name: Seq<char>) -> Seq<char> {
    "Session id \""@ + name + "\" event log is busy. Retry the operation."@
}

/// The text shown when the creation and metadata lock is held.
pub open spec fn metadata_busy_text(name: Seq<char>) -> Seq<char> {
    "Session id \""@ + name + "\" metadata is busy. Retry the operation."@
}

/// Computes `event_busy_text`.
pub fn event_busy_message(name: &str) -> (r: String)
    ensures
        r@ == event_busy_text(name@),
{
    let mut m = "Session id \"".to_owned();
    m.append(name);
    m.append("\" event log is busy. Retry the operation.");
    m
}

/// Computes `metadata_busy_text`.
pub fn metadata_busy_message(name: &str) -> (r: String)
    ensures
        r@ == metadata_busy_text(name@),
{
    let mut m = "Session id \"".to_owned();
    m.append(name);
    m.append("\" metadata is busy. Retry the operation.");
    m
}

/// A held file lock. As long as it is armed, letting go of it unlinks the lock
/// file.
#[derive(Debug, PartialEq, Eq)]
pub struct LockGuard {
    path: String,
    armed: bool,
}

impl LockGuard {
    /// The lock file.
    pub closed spec fn file(&self) -> Seq<char> {
        self.path@
    }

    /// Whether letting go unlinks the file.
    pub closed spec fn armed(&self) -> bool {
        self.armed
    }

    /// A guard over a lock that was just taken.
    pub fn new(path: String) -> (g: LockGuard)
        ensures
            g.file() == path@,
            g.armed(),
    {
        LockGuard { path, armed: true }
    }

    /// The lock file this guard owns.
    pub fn path(&self) -> (p: &str)
        ensures
            p@ == self.file(),
    {
        self.path.as_str()
    }

    /// Disarm the guard and name the file to unlink now.
    pub fn release(&mut self) -> (file: String)
        ensures
            file@ == old(self).file(),
            !final(self).armed(),
            final(self).file() == old(self).file(),
    {
        self.armed = false;
        self.path.clone()
    }

    /// Keep the lock file on disk when this guard goes away.
    pub fn forget(&mut self)
        ensures
            !final(self).armed(),
            final(self).file() == old(self).file(),
    {
        self.armed = false;
    }

    /// The file to unlink when the guard goes away, if it is still armed.
    pub fn on_drop(&self) -> (file: Option<String>)
        ensures
            match file {
                Some(f) => self.armed() && f@ == self.file(),
                None => !self.armed(),
            },
    {
        if self.armed {
            Some(self.path.clone())
        } else {
            None
        }
    }
}

/// The integer at the beginning of a text: white space, an optional sign,
/// digits, and anything behind them.
pub open spec fn leading_int(s: Seq<char>) -> Option<int> {
    let t = spaceless_start(s);
    let from = if t.len() > 0 && (t[0] == '-' || t[0] == '+') {
        1int
    } else {
        0int
    };
    let end = digits_end(t, from);
    let n = number(t.subrange(from, end)) as int;
    let v = if t.len() > 0 && t[0] == '-' {
        -n
    } else {
        n
    };
    if end == from || !(i32::MIN <= v <= i32::MAX) {
        None
    } else {
        Some(v)
    }
}

/// The leading integer of a text, `None` when there is none or it needs more
/// than 32 bits.
pub fn parse_leading_int(s: &str) -> (r: Option<i32>)
    ensures
        match r {
            Some(n) => leading_int(s@) == Some(n as int),
            None => leading_int(s@) is None,
        },
{
    let chars = to_chars(s);
    let start = trim_front(chars.as_slice());
    let t = slice_of(chars.as_slice(), start, chars.len());
    assert(t@ =~= chars@.skip(start as int));
    let negative = t.len() > 0 && t[0] == '-';
    let from: usize = if t.len() > 0 && (t[0] == '-' || t[0] == '+') {
        1
    } else {
        0
    };
    let mut end: usize = from;
    while end < t.len() && char_is_digit(t[end])
        invariant
            from <= end <= t@.len(),
            digits_end(t@, from as int) == digits_end(t@, end as int),
        decreases t.len() - end,
    {
        end += 1;
    }
    proof {
        lemma_digits_end(t@, from as int);
    }
    if end == from {
        return None;
    }
    let max: u64 = if negative {
        0x8000_0000
    } else {
        0x7fff_ffff
    };
    match digits_value(t.as_slice(), from, end, max) {
        Some(n) => {
            if negative {
                Some((-(n as i64)) as i32)
            } else {
                Some(n as i32)
            }
        },
        None => None,
    }
}

/// The pid that a lock or pid file names.
pub open spec fn holder(content: Seq<char>) -> Option<int> {
    leading_int(trimmed(content))
}

/// Computes `holder`.
pub fn holder_pid(content: &str) -> (r: Option<i32>)
    ensures
        match r {
            Some(n) => holder(content@) == Some(n as int),
            None => holder(content@) is None,
        },
{
    let text = trim(content);
    parse_leading_int(text.as_str())
}

/// What to do about a lock file that exists already.
#[derive(Debug, Clone, Copy, PartialEq, Eq, Structural)]
pub enum StaleStep {
    /// Somebody else has the lock.
    Refuse,
    /// The file is gone: try to create it.
    Create,
    /// The holder is dead: unlink the file, then try to create it.
    RemoveThenCreate,
}

/// The identity of a file.
#[derive(Debug, Clone, Copy, PartialEq, Eq, Structural)]
pub struct Inode {
    pub device: u64,
    pub number: u64,
}

/// Decides about a lock file that was opened: `exclusive` says whether the
/// advisory lock on it was granted, `current` what the path names now, and
/// `holder_alive` whether the process that the opened file names lives. A lock
/// is only removed while the path still names the file that was opened.
pub fn steal_opened_lock(
    exclusive: bool,
    opened: Inode,
    current: Option<Inode>,
    holder_alive: bool,
) -> (r: StaleStep)
    ensures
        r is Refuse <==> !exclusive || (current is Some && (current != Some(opened)
            || holder_alive)),
        r is Create <==> exclusive && current is None,
        r is RemoveThenCreate <==> exclusive && current == Some(opened) && !holder_alive,
{
    if !exclusive {
        return StaleStep::Refuse;
    }
    match current {
        None => StaleStep::Create,
        Some(now) => {
            if now != opened || holder_alive {
                StaleStep::Refuse
            } else {
                StaleStep::RemoveThenCreate
            }
        },
    }
}

/// Why a lock was not taken.
#[derive(Debug, Clone, PartialEq, Eq)]
pub enum LockRefusal {
    /// A live process holds it. Retrying can work.
    Busy,
    /// The lock file could not be created at all. Retrying cannot work, so
    /// the message must not ask for a retry.
    Unavailable(String),
}

/// What came of trying a lock: taken or not, or the text of the failure.
pub type LockAttempt = Result<bool, String>;

/// The refusal that an attempt at the lock at `path` means, if it means one.
pub open spec fn refusal_text(path: Seq<char>, cause: Seq<char>) -> Seq<char> {
    path + ": "@ + cause
}

/// Says why a lock was refused.
pub fn lock_or_refusal(path: &str, attempt: LockAttempt) -> (r: Result<(), LockRefusal>)
    ensures
        match attempt {
            Ok(true) => r is Ok,
            Ok(false) => r is Err && r->Err_0 is Busy,
            Err(cause) => r is Err && (r->Err_0 matches LockRefusal::Unavailable(m) && m@
                == refusal_text(path@, cause@)),
        },
{
    match attempt {
        Ok(taken) => {
            if taken {
                Ok(())
            } else {
                Err(LockRefusal::Busy)
            }
        },
        Err(cause) => {
            let mut m = path.to_owned();
            m.append(": ");
            m.append(cause.as_str());
            Err(LockRefusal::Unavailable(m))
        },
    }
}

/// The message of a refused event lock.
pub fn take_event_lock(name: &str, refusal: &LockRefusal) -> (r: String)
    ensures
        r@ == (match refusal {
            LockRefusal::Busy => event_busy_text(name@),
            LockRefusal::Unavailable(cause) => cause@,
        }),
{
    match refusal {
        LockRefusal::Busy => event_busy_message(name),
        LockRefusal::Unavailable(cause) => cause.clone(),
    }
}

/// The message of a refused metadata lock.
pub fn take_metadata_lock(name: &str, refusal: &LockRefusal) -> (r: String)
    ensures
        r@ == (match refusal {
            LockRefusal::Busy => metadata_busy_text(name@),
            LockRefusal::Unavailable(cause) => cause@,
        }),
{
    match refusal {
        LockRefusal::Busy => metadata_busy_message(name),
        LockRefusal::Unavailable(cause) => cause.clone(),
    }
}

/// How long writers wait for the event lock, in milliseconds.
pub const EVENT_LOCK_WAIT_MS: u64 = 5000;

/// The budget that a metadata patch shares between the two locks, in
/// milliseconds.
pub const METADATA_PATCH_LOCK_WAIT_MS: u64 = 8000;

/// What a waiter does after a refusal.
#[derive(Debug, Clone, PartialEq, Eq)]
pub enum WaitStep {
    /// Give up, with the refusal to report.
    GiveUp(LockRefusal),
    /// Sleep for so many milliseconds and try again.
    Sleep(u64),
}

/// Decides what a waiter does after a refusal: a lock that cannot be made at
/// all is reported at once, a busy one is tried every ten milliseconds until
/// the deadline.
pub fn wait_for_lock(refusal: LockRefusal, now_ms: u64, deadline_ms: u64) -> (r: WaitStep)
    ensures
        match refusal {
            LockRefusal::Unavailable(_) => r == WaitStep::GiveUp(refusal),
            LockRefusal::Busy => if now_ms >= deadline_ms {
                r == WaitStep::GiveUp(refusal)
            } else {
                r == WaitStep::Sleep(
                    if deadline_ms - now_ms < 10 {
                        (deadline_ms - now_ms) as u64
                    } else {
                        10
                    },
                )
            },
        },
{
    match refusal {
        LockRefusal::Unavailable(_) => WaitStep::GiveUp(refusal),
        LockRefusal::Busy => {
            if now_ms >= deadline_ms {
                WaitStep::GiveUp(refusal)
            } else if deadline_ms - now_ms < 10 {
                WaitStep::Sleep(deadline_ms - now_ms)
            } else {
                WaitStep::Sleep(10)
            }
        },
    }
}

/// Which lock refused an operation that needs both.
#[derive(Debug, Clone, PartialEq, Eq)]
pub enum LockBusy {
    /// The event lock is held by a live process.
    Events,
    /// The metadata lock is held by a live process.
    Metadata,
    /// A lock file could not be created. Carries the cause.
    Unavailable(String),
}

impl LockBusy {
    /// The error text for the refusing lock.
    pub fn message(&self, name: &str) -> (r: String)
        ensures
            r@ == (match self {
                LockBusy::Events => event_busy_text(name@),
                LockBusy::Metadata => metadata_busy_text(name@),
                LockBusy::Unavailable(cause) => cause@,
            }),
    {
        match self {
            LockBusy::Events => event_busy_message(name),
            LockBusy::Metadata => metadata_busy_message(name),
            LockBusy::Unavailable(cause) => cause.clone(),
        }
    }
}

/// How far an operation that needs both locks has come.
#[derive(Debug, Clone, PartialEq, Eq)]
pub enum BothLocks {
    /// Nothing is held: take the event lock.
    TakeEvents,
    /// The event lock is held: take the metadata lock.
    TakeMetadata,
    /// Both are held: run the operation, then let go of the metadata lock and
    /// of the event lock.
    Run,
    /// A lock was refused: let go of what is held, and report.
    Refused(LockBusy),
}

/// The next step once the lock of this step has been tried. The event lock
/// always comes first, and the operation only runs with both.
pub fn with_both_locks(step: BothLocks, attempt: Result<(), LockRefusal>) -> (r: BothLocks)
    ensures
        match step {
            BothLocks::TakeEvents => match attempt {
                Ok(_) => r is TakeMetadata,
                Err(LockRefusal::Busy) => r == BothLocks::Refused(LockBusy::Events),
                Err(LockRefusal::Unavailable(c)) => r == BothLocks::Refused(
                    LockBusy::Unavailable(c),
                ),
            },
            BothLocks::TakeMetadata => match attempt {
                Ok(_) => r is Run,
                Err(LockRefusal::Busy) => r == BothLocks::Refused(LockBusy::Metadata),
                Err(LockRefusal::Unavailable(c)) => r == BothLocks::Refused(
                    LockBusy::Unavailable(c),
                ),
            },
            _ => r == step,
        },
{
    match step {
        BothLocks::TakeEvents => match attempt {
            Ok(_) => BothLocks::TakeMetadata,
            Err(LockRefusal::Busy) => BothLocks::Refused(LockBusy::Events),
            Err(LockRefusal::Unavailable(c)) => BothLocks::Refused(LockBusy::Unavailable(c)),
        },
        BothLocks::TakeMetadata => match attempt {
            Ok(_) => BothLocks::Run,
            Err(LockRefusal::Busy) => BothLocks::Refused(LockBusy::Metadata),
            Err(LockRefusal::Unavailable(c)) => BothLocks::Refused(LockBusy::Unavailable(c)),
        },
        BothLocks::Run => BothLocks::Run,
        BothLocks::Refused(b) => BothLocks::Refused(b),
    }
}

/// Is a lock held by a live process? `content` is the lock file's content,
/// `alive` whether the process that it names lives.
pub fn is_creation_lock_held(content: Option<&str>, alive: bool) -> (r: bool)
    ensures
        r == (content matches Some(c) && (holder(c@) matches Some(pid) && pid > 0) && alive),
{
    match content {
        Some(c) => match holder_pid(c) {
            Some(pid) => pid > 0 && alive,
            None => false,
        },
        None => false,
    }
}

/// Verify a delegated lock without acquiring it: the file names `owner_pid`,
/// and that process lives.
pub fn is_lock_owned_by_pid(content: Option<&str>, owner_pid: i32, alive: bool) -> (r: bool)
    ensures
        r == (owner_pid > 0 && (content matches Some(c) && holder(c@) == Some(owner_pid as int))
            && alive),
{
    if owner_pid <= 0 {
        return false;
    }
    match content {
        Some(c) => match holder_pid(c) {
            Some(pid) => pid == owner_pid && alive,
            None => false,
        },
        None => false,
    }
}

/// What is said about a busy lock, with the session's name in it, and how long
/// a lock is waited for.
pub proof fn law_busy_messages(name: Seq<char>, path: Seq<char>, cause: Seq<char>)
    ensures
        event_busy_text(name) == "Session id \""@ + name
            + "\" event log is busy. Retry the operation."@,
        metadata_busy_text(name) == "Session id \""@ + name
            + "\" metadata is busy. Retry the operation."@,
        refusal_text(path, cause) == path + ": "@ + cause,
        EVENT_LOCK_WAIT_MS == 5000,
        METADATA_PATCH_LOCK_WAIT_MS == 8000,
{
}

/// Digits end where the first other character stands.
proof fn lemma_run_of_digits(t: Seq<char>, from: int, n: int)
    requires
        0 <= from,
        0 <= n,
        from + n <= t.len(),
        forall|i: int| from <= i < from + n ==> is_digit(#[trigger] t[i]),
        from + n < t.len() ==> !is_digit(t[from + n]),
    ensures
        digits_end(t, from) == from + n,
    decreases n,
{
    if n > 0 {
        assert(is_digit(t[from]));
        lemma_run_of_digits(t, from + 1, n - 1);
    }
}

/// A number at the beginning is read, whatever stands behind its digits; a sign
/// may stand before it.
pub proof fn law_number_at_the_beginning(n: nat, rest: Seq<char>)
    requires
        n <= i32::MAX,
        rest.len() > 0 ==> !is_digit(rest[0]),
    ensures
        leading_int(dec(n) + rest) == Some(n as int),
        leading_int(seq!['-'] + dec(n) + rest) == Some(-(n as int)),
        leading_int(seq!['+'] + dec(n) + rest) == Some(n as int),
        rest.len() > 0 && rest[0] != '-' && rest[0] != '+' && !space(rest[0]) ==> leading_int(rest)
            is None,
        leading_int(Seq::empty()) is None,
{
    let d = dec(n);
    lemma_number_dec(n);
    let t = d + rest;
    assert(is_digit(d[0]));
    assert(t[0] == d[0]);
    assert(spaceless_start(t) == t);
    assert forall|i: int| 0 <= i < d.len() implies is_digit(#[trigger] t[i]) by {
        assert(t[i] == d[i]);
    }
    lemma_run_of_digits(t, 0, d.len() as int);
    assert(t.subrange(0, d.len() as int) =~= d);
    lemma_signed_number('-', d, rest);
    lemma_signed_number('+', d, rest);
    if rest.len() > 0 && !space(rest[0]) {
        assert(spaceless_start(rest) == rest);
    }
}

proof fn lemma_signed_number(sign: char, d: Seq<char>, rest: Seq<char>)
    requires
        sign == '-' || sign == '+',
        forall|i: int| 0 <= i < d.len() ==> is_digit(#[trigger] d[i]),
        rest.len() > 0 ==> !is_digit(rest[0]),
    ensures
        ({
            let t = seq![sign] + d + rest;
            spaceless_start(t) == t && t[0] == sign && digits_end(t, 1) == 1 + d.len()
                && t.subrange(1, 1 + d.len() as int) == d
        }),
{
    let t = seq![sign] + d + rest;
    assert(t[0] == sign);
    assert forall|i: int| 1 <= i < 1 + d.len() implies is_digit(#[trigger] t[i]) by {
        assert(t[i] == d[i - 1]);
    }
    lemma_run_of_digits(t, 1, d.len() as int);
    assert(t.subrange(1, 1 + d.len() as int) =~= d);
}

/// The holder that is written into a lock, with or without a line feed behind
/// it, is the holder that is read.
pub proof fn law_holder_is_read_back(n: nat)
    requires
        n <= i32::MAX,
    ensures
        holder(dec(n)) == Some(n as int),
        holder(dec(n) + seq!['\n']) == Some(n as int),
{
    let d = dec(n);
    lemma_number_dec(n);
    assert(is_digit(d[0]) && is_digit(d[d.len() - 1]));
    crate::text::law_trimming(Seq::empty(), d, Seq::empty());
    crate::text::law_trimming(Seq::empty(), d, seq!['\n']);
    assert(Seq::<char>::empty() + d + Seq::<char>::empty() =~= d);
    assert(Seq::<char>::empty() + d + seq!['\n'] =~= d + seq!['\n']);
    law_number_at_the_beginning(n, Seq::empty());
    assert(d + Seq::<char>::empty() =~= d);
}

} // verus!
