//! Sending data to a session: framing and pacing.

use crate::paste::{BRACKETED_PASTE_END, BRACKETED_PASTE_START};
use crate::protocol::{
    encode_data, frame, law_encoded_packet_is_read_back, packets, MessageType, PacketView,
    MAX_PACKET_LENGTH,
};
use vstd::prelude::*;
use vstd::utf8::encode_utf8;

verus! {

/// Default gap between the items of a sequence, in milliseconds. It lets a
/// program consume each chunk before the next arrives.
pub const DEFAULT_SEQ_DELAY_MS: u64 = 300;

/// How long to wait for the daemon to close its side after the data, in
/// milliseconds.
pub const FINISH_WAIT: u64 = 2000;

/// How items are paced and wrapped.
#[derive(Debug, Clone, Copy, PartialEq, Eq, Structural)]
pub struct SendOptions {
    /// Wait this long between items, in milliseconds; 0 streams them back to
    /// back.
    pub delay_ms: u64,
    /// Wrap the whole payload in bracketed-paste markers, each in a packet of
    /// its own.
    pub paste: bool,
}

/// The options of the programmatic form.
#[derive(Debug, Clone, Copy, PartialEq, Eq, Structural)]
pub struct SendDataOptions {
    pub delay_ms: u64,
    pub paste: bool,
}

impl Default for SendOptions {
    fn default() -> (r: SendOptions)
        ensures
            r == (SendOptions { delay_ms: 0, paste: false }),
    {
        SendOptions { delay_ms: 0, paste: false }
    }
}

impl Default for SendDataOptions {
    fn default() -> (r: SendDataOptions)
        ensures
            r == (SendDataOptions { delay_ms: 0, paste: false }),
    {
        SendDataOptions { delay_ms: 0, paste: false }
    }
}

/// One write to the session.
#[derive(Debug)]
pub struct SendFrame {
    /// Wait for the delay before this write.
    pub pause: bool,
    pub bytes: Vec<u8>,
}

/// The contents of a list of items.
pub open spec fn byte_views(v: Seq<Vec<u8>>) -> Seq<Seq<u8>> {
    Seq::new(v.len(), |i: int| v[i]@)
}

/// The contents of a list of writes.
pub open spec fn frame_views(v: Seq<SendFrame>) -> Seq<(bool, Seq<u8>)> {
    Seq::new(v.len(), |i: int| (v[i].pause, v[i].bytes@))
}

/// The payloads to send: the items, between the paste markers where they are
/// asked for and there is an item.
pub open spec fn payloads(items: Seq<Seq<u8>>, paste: bool) -> Seq<Seq<u8>> {
    if paste && items.len() > 0 {
        seq![encode_utf8(BRACKETED_PASTE_START@)] + items + seq![encode_utf8(BRACKETED_PASTE_END@)]
    } else {
        items
    }
}

/// The writes: a packet for each payload, with a pause before each item but
/// the first where there is a delay.
pub open spec fn writes(items: Seq<Seq<u8>>, delay: bool, paste: bool) -> Seq<(bool, Seq<u8>)> {
    let p = payloads(items, paste);
    let first: int = if paste && items.len() > 0 {
        1
    } else {
        0
    };
    Seq::new(
        p.len(),
        |i: int| (delay && first < i < first + items.len(), frame(0, p[i])),
    )
}

/// What to write for items: each in a data packet of its own. There is no
/// attach and no implicit line end.
pub fn send(items: &[Vec<u8>], opts: SendOptions) -> (r: Vec<SendFrame>)
    ensures
        frame_views(r@) == writes(byte_views(items@), opts.delay_ms > 0, opts.paste),
{
    let paste = opts.paste && items.len() > 0;
    let delay = opts.delay_ms > 0;
    let ghost all = byte_views(items@);
    let ghost want = writes(all, delay, opts.paste);
    let ghost first: int = if paste {
        1
    } else {
        0
    };
    let mut out: Vec<SendFrame> = Vec::new();
    if paste {
        out.push(
            SendFrame { pause: false, bytes: encode_data(BRACKETED_PASTE_START.as_bytes()) },
        );
    }
    assert(frame_views(out@) =~= want.take(first));
    let mut i: usize = 0;
    while i < items.len()
        invariant
            i <= items@.len(),
            all == byte_views(items@),
            want == writes(all, delay, opts.paste),
            paste == (opts.paste && items@.len() > 0),
            first == (if paste {
                1int
            } else {
                0int
            }),
            frame_views(out@) == want.take(first + i),
        decreases items.len() - i,
    {
        let ghost before = frame_views(out@);
        let bytes = encode_data(items[i].as_slice());
        assert(payloads(all, opts.paste)[first + i] == items@[i as int]@);
        let pause = i > 0 && delay;
        let ghost view = (pause, bytes@);
        assert(want[first + i] == view);
        out.push(SendFrame { pause, bytes });
        proof {
            assert(frame_views(out@) =~= before.push(view));
            assert(want.take(first + i + 1) =~= want.take(first + i).push(want[first + i]));
        }
        i += 1;
    }
    if paste {
        let ghost before = frame_views(out@);
        let bytes = encode_data(BRACKETED_PASTE_END.as_bytes());
        let ghost view = (false, bytes@);
        assert(want[first + items@.len()] == view);
        out.push(SendFrame { pause: false, bytes });
        assert(frame_views(out@) =~= before.push(view));
    }
    assert(frame_views(out@) =~= want);
    out
}

/// The programmatic form of `send`.
pub fn send_data(items: &[Vec<u8>], opts: SendDataOptions) -> (r: Vec<SendFrame>)
    ensures
        frame_views(r@) == writes(byte_views(items@), opts.delay_ms > 0, opts.paste),
{
    send(items, SendOptions { delay_ms: opts.delay_ms, paste: opts.paste })
}

/// The bytes of frames for payloads, one behind the other.
pub open spec fn sent(p: Seq<Seq<u8>>) -> Seq<u8>
    decreases p.len(),
{
    if p.len() == 0 {
        Seq::empty()
    } else {
        frame(0, p[0]) + sent(p.skip(1))
    }
}

/// The daemon reads back exactly the payloads that were sent, each as a data
/// packet of its own, in order.
pub proof fn law_sent_items_are_read_back(p: Seq<Seq<u8>>)
    requires
        forall|i: int| 0 <= i < p.len() ==> (#[trigger] p[i]).len() <= MAX_PACKET_LENGTH,
    ensures
        packets(sent(p)) == Seq::new(
            p.len(),
            |i: int| PacketView { type_: MessageType::Data, payload: p[i] },
        ),
    decreases p.len(),
{
    let want = Seq::new(
        p.len(),
        |i: int| PacketView { type_: MessageType::Data, payload: p[i] },
    );
    if p.len() == 0 {
        assert(packets(sent(p)) =~= want);
    } else {
        let rest = p.skip(1);
        assert forall|i: int| 0 <= i < rest.len() implies (#[trigger] rest[i]).len()
            <= MAX_PACKET_LENGTH by {
            assert(rest[i] == p[i + 1]);
        }
        law_sent_items_are_read_back(rest);
        assert(p[0].len() <= MAX_PACKET_LENGTH);
        law_encoded_packet_is_read_back(MessageType::Data, p[0], sent(rest));
        assert(packets(sent(p)) =~= want);
    }
}

/// What is sent: the items as they are, and for a paste the two markers before
/// and behind them; nothing where there is nothing to send.
pub proof fn law_what_is_sent(items: Seq<Seq<u8>>)
    ensures
        payloads(items, false) == items,
        payloads(Seq::empty(), true).len() == 0,
        items.len() > 0 ==> payloads(items, true) == seq![encode_utf8("\x1b[200~"@)] + items + seq![
            encode_utf8("\x1b[201~"@),
        ],
        DEFAULT_SEQ_DELAY_MS == 300,
        FINISH_WAIT == 2000,
{
}

/// How it is sent: each payload in a data frame of its own, in order, and a
/// pause, where one is asked for, between two items only.
pub proof fn law_how_it_is_sent(items: Seq<Seq<u8>>, delay: bool, paste: bool, i: int)
    requires
        0 <= i < payloads(items, paste).len(),
    ensures
        ({
            let w = writes(items, delay, paste);
            &&& w.len() == payloads(items, paste).len()
            &&& w[i].1 == frame(0, payloads(items, paste)[i])
            &&& !delay ==> !w[i].0
            &&& delay && !paste ==> (w[i].0 <==> i > 0)
            &&& delay && paste ==> (w[i].0 <==> 1 < i <= items.len())
        }),
{
}

/// What is written in all is the frames of the payloads, one after the other.
pub proof fn law_sent_frames(p: Seq<Seq<u8>>, one: Seq<u8>)
    ensures
        sent(Seq::empty()).len() == 0,
        sent(seq![one] + p) == frame(0, one) + sent(p),
{
    assert((seq![one] + p).skip(1) =~= p);
    assert((seq![one] + p)[0] == one);
}

/// Lists of bytes and frames are what they hold.
pub proof fn law_views_of_frames(v: Seq<SendFrame>, w: Seq<Vec<u8>>, i: int)
    ensures
        frame_views(v).len() == v.len(),
        0 <= i < v.len() ==> frame_views(v)[i].0 == v[i].pause && frame_views(v)[i].1
            == v[i].bytes@,
        byte_views(w).len() == w.len(),
        0 <= i < w.len() ==> byte_views(w)[i] == w[i]@,
{
}

} // verus!
