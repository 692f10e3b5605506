//! The collector's per-key press counters, the snapshot it takes of them
//! for each send, and what it does with the reply.
use vstd::prelude::*;
use crate::protocol::{encode_snapshot, snapshot_bytes, KEY_COUNT};

verus! {

/// The reply by which the service accepts a snapshot (`ACK1`).
pub const ACK_MESSAGE: [u8; 4] = [0x41, 0x43, 0x4b, 0x31];

/// Hook code of a keyboard event that the hook procedure must process
/// (`HC_ACTION`).
pub const HOOK_ACTION: i32 = 0;

/// Window message of a key going down (`WM_KEYDOWN`).
pub const MESSAGE_KEY_DOWN: usize = 0x0100;

/// Window message of a key going down while Alt is held (`WM_SYSKEYDOWN`).
pub const MESSAGE_SYS_KEY_DOWN: usize = 0x0104;

/// Whether a low-level keyboard hook event is a key going down that counts.
pub open spec fn key_down_event(code: i32, message: usize) -> bool {
    code == HOOK_ACTION && (message == MESSAGE_KEY_DOWN || message == MESSAGE_SYS_KEY_DOWN)
}

/// `a + b`, held at `u32::MAX` where it would overflow.
pub open spec fn sat_add(a: u32, b: u32) -> u32 {
    if a + b > u32::MAX {
        u32::MAX
    } else {
        (a + b) as u32
    }
}

/// All counters at zero.
pub open spec fn zero_counts() -> Seq<u32> {
    Seq::new(KEY_COUNT as nat, |i: int| 0u32)
}

/// The counters `counts` with one more press of `vk`; a code outside the
/// counted range changes nothing.
pub open spec fn with_press(counts: Seq<u32>, vk: u32) -> Seq<u32> {
    if vk < KEY_COUNT {
        counts.update(vk as int, sat_add(counts[vk as int], 1))
    } else {
        counts
    }
}

/// The counters `counts` with the counts of `snapshot` added back, key by key.
pub open spec fn merged(counts: Seq<u32>, snapshot: Seq<u32>) -> Seq<u32> {
    Seq::new(KEY_COUNT as nat, |i: int| sat_add(counts[i], snapshot[i]))
}

/// The counters `counts` after the presses `presses`, in that order.
pub open spec fn with_presses(counts: Seq<u32>, presses: Seq<u32>) -> Seq<u32>
    decreases presses.len(),
{
    if presses.len() == 0 {
        counts
    } else {
        with_press(with_presses(counts, presses.drop_last()), presses.last())
    }
}

/// The counters after a send of the snapshot `taken`, when `during` holds
/// the presses made while it was under way: a delivered snapshot is gone,
/// one that was not delivered is added back.
pub open spec fn after_send(during: Seq<u32>, taken: Seq<u32>, delivered: bool) -> Seq<u32> {
    if delivered {
        during
    } else {
        merged(during, taken)
    }
}

/// Whether a snapshot holds no press at all.
pub open spec fn idle(snapshot: Seq<u32>) -> bool {
    forall|i: int| 0 <= i < snapshot.len() ==> snapshot[i] == 0
}

/// Press counters for the `KEY_COUNT` virtual-key codes.
pub struct KeyCounter {
    counts: [u32; KEY_COUNT],
}

impl View for KeyCounter {
    type V = Seq<u32>;

    closed spec fn view(&self) -> Seq<u32> {
        self.counts@
    }
}

impl KeyCounter {
    /// Counters that have seen no press.
    pub fn new() -> (c: KeyCounter)
        ensures
            c@ == zero_counts(),
    {
        let c = KeyCounter { counts: [0u32; KEY_COUNT] };
        assert(c@ =~= zero_counts());
        c
    }

    /// A counter holds one count per key.
    pub proof fn lemma_len(&self)
        ensures
            self@.len() == KEY_COUNT,
    {
    }

    /// Counts a low-level keyboard hook event: a key going down (code
    /// `HOOK_ACTION`, message `MESSAGE_KEY_DOWN` or `MESSAGE_SYS_KEY_DOWN`)
    /// is a press of `vk`, every other event changes nothing.
    pub fn record_hook_event(&mut self, code: i32, message: usize, vk: u32)
        ensures
            final(self)@ == (if key_down_event(code, message) {
                with_press(old(self)@, vk)
            } else {
                old(self)@
            }),
            final(self)@.len() == KEY_COUNT,
    {
        if code == HOOK_ACTION && (message == MESSAGE_KEY_DOWN || message == MESSAGE_SYS_KEY_DOWN) {
            self.record_key(vk);
        }
    }

    /// Starts a send: takes the counts and starts again from zero. An idle
    /// snapshot is not sent (`None`); otherwise the snapshot comes with its
    /// message.
    pub fn begin_send(&mut self) -> (r: Option<([u32; KEY_COUNT], Vec<u8>)>)
        ensures
            final(self)@ == zero_counts(),
            r is None <==> idle(old(self)@),
            r matches Some((snapshot, message)) ==> snapshot@ == old(self)@ && message@
                == snapshot_bytes(old(self)@),
    {
        let snapshot = self.snapshot_and_reset();
        if is_idle(&snapshot) {
            None
        } else {
            let message = encode_snapshot(&snapshot);
            Some((snapshot, message))
        }
    }

    /// Ends a send of `snapshot`: `reply` is what the service answered, or
    /// `None` when the send failed. Unless the answer is `ACK_MESSAGE`, the
    /// snapshot goes back into the counters. Returns whether it was
    /// delivered.
    pub fn end_send(&mut self, snapshot: &[u32; KEY_COUNT], reply: Option<[u8; 4]>) -> (delivered:
        bool)
        ensures
            delivered == (reply matches Some(r) && r@ == ACK_MESSAGE@),
            final(self)@ == after_send(old(self)@, snapshot@, delivered),
    {
        let delivered = match reply {
            Some(r) => is_ack(&r),
            None => false,
        };
        if !delivered {
            self.restore(snapshot);
        }
        delivered
    }

    /// The current counts.
    pub fn counts(&self) -> (out: [u32; KEY_COUNT])
        ensures
            out@ == self@,
    {
        self.counts
    }

    /// Counts one press of the virtual key `vk`; a count that has reached
    /// `u32::MAX` stays there, and codes from `KEY_COUNT` on are ignored.
    pub fn record_key(&mut self, vk: u32)
        ensures
            final(self)@ == with_press(old(self)@, vk),
            final(self)@.len() == KEY_COUNT,
    {
        if vk < 256u32 {
            let i = vk as usize;
            self.counts[i] = self.counts[i].saturating_add(1);
        }
    }

    /// Hands out the counts so far and starts again from zero.
    pub fn snapshot_and_reset(&mut self) -> (snapshot: [u32; KEY_COUNT])
        ensures
            snapshot@ == old(self)@,
            final(self)@ == zero_counts(),
    {
        let snapshot = self.counts;
        self.counts = [0u32; KEY_COUNT];
        assert(self@ =~= zero_counts());
        snapshot
    }

    /// Adds the counts of a snapshot that could not be delivered back to
    /// the counters, so that no press is lost.
    pub fn restore(&mut self, snapshot: &[u32; KEY_COUNT])
        ensures
            final(self)@ == merged(old(self)@, snapshot@),
    {
        let ghost start = self.counts@;
        for i in 0..KEY_COUNT
            invariant
                start.len() == KEY_COUNT,
                forall|j: int|
                    0 <= j < i ==> #[trigger] self.counts@[j] == sat_add(start[j], snapshot@[j]),
                forall|j: int| i <= j < KEY_COUNT ==> #[trigger] self.counts@[j] == start[j],
        {
            self.counts[i] = self.counts[i].saturating_add(snapshot[i]);
        }
        assert(self@ =~= merged(start, snapshot@));
    }
}

/// Whether a snapshot holds no press, in which case nothing is sent.
pub fn is_idle(snapshot: &[u32; KEY_COUNT]) -> (r: bool)
    ensures
        r == idle(snapshot@),
{
    for i in 0..KEY_COUNT
        invariant
            forall|j: int| 0 <= j < i ==> snapshot@[j] == 0,
    {
        if snapshot[i] != 0 {
            return false;
        }
    }
    true
}

/// Whether the service's reply accepts the snapshot.
pub fn is_ack(reply: &[u8; 4]) -> (r: bool)
    ensures
        r == (reply@ == ACK_MESSAGE@),
{
    let r = reply[0] == ACK_MESSAGE[0] && reply[1] == ACK_MESSAGE[1] && reply[2] == ACK_MESSAGE[2]
        && reply[3] == ACK_MESSAGE[3];
    assert(r ==> reply@ =~= ACK_MESSAGE@);
    r
}

/// A snapshot taken and then given back when its send failed leaves the
/// counters as they were, if no key was pressed meanwhile.
pub proof fn law_restore_undoes_snapshot(counts: Seq<u32>)
    requires
        counts.len() == KEY_COUNT,
    ensures
        merged(zero_counts(), counts) == counts,
{
    assert(merged(zero_counts(), counts) =~= counts);
}

/// Giving a snapshot back loses no press: each counter afterwards holds at
/// least the presses of the snapshot and those made meanwhile, unless it
/// stands at `u32::MAX`.
pub proof fn law_restore_keeps_presses(counts: Seq<u32>, snapshot: Seq<u32>, i: int)
    requires
        counts.len() == KEY_COUNT,
        snapshot.len() == KEY_COUNT,
        0 <= i < KEY_COUNT,
    ensures
        merged(counts, snapshot)[i] == counts[i] + snapshot[i] || merged(counts, snapshot)[i]
            == u32::MAX,
        merged(counts, snapshot)[i] >= counts[i],
        merged(counts, snapshot)[i] >= snapshot[i],
{
}

/// A press never makes a counter smaller, and it adds one unless the
/// counter stands at `u32::MAX`.
pub proof fn law_press_counts_up(counts: Seq<u32>, vk: u32)
    requires
        counts.len() == KEY_COUNT,
        vk < KEY_COUNT,
    ensures
        with_press(counts, vk)[vk as int] == (if counts[vk as int] == u32::MAX {
            u32::MAX
        } else {
            (counts[vk as int] + 1) as u32
        }),
        forall|j: int| 0 <= j < KEY_COUNT && j != vk ==> with_press(counts, vk)[j] == counts[j],
{
}

/// The counters after a sequence of presses: each key's count grows by the
/// number of its presses, held at `u32::MAX`.
pub proof fn lemma_with_presses(counts: Seq<u32>, presses: Seq<u32>)
    requires
        counts.len() == KEY_COUNT,
    ensures
        with_presses(counts, presses).len() == KEY_COUNT,
        forall|k: int|
            0 <= k < KEY_COUNT ==> #[trigger] with_presses(counts, presses)[k] == (if counts[k]
                + presses.to_multiset().count(k as u32) > u32::MAX {
                u32::MAX as int
            } else {
                counts[k] + presses.to_multiset().count(k as u32)
            }),
    decreases presses.len(),
{
    broadcast use vstd::seq_lib::group_to_multiset_ensures;

    if presses.len() > 0 {
        let init = presses.drop_last();
        let last = presses.last();
        lemma_with_presses(counts, init);
        assert(presses == init.push(last));
        assert(presses.to_multiset() =~= init.to_multiset().insert(last));
    } else {
        assert(presses.to_multiset() =~= vstd::multiset::Multiset::empty());
    }
}

/// The counters depend only on how often each key was pressed, not on the
/// order of the presses: two orderings of the same presses give the same
/// counts.
pub proof fn law_press_order_irrelevant(counts: Seq<u32>, presses: Seq<u32>, reordered: Seq<u32>)
    requires
        counts.len() == KEY_COUNT,
        presses.to_multiset() == reordered.to_multiset(),
    ensures
        with_presses(counts, presses) == with_presses(counts, reordered),
{
    lemma_with_presses(counts, presses);
    lemma_with_presses(counts, reordered);
    assert(with_presses(counts, presses) =~= with_presses(counts, reordered));
}

/// A send loses no press: a delivered snapshot leaves the counters with the
/// presses made meanwhile, and the service gets a message that decodes to
/// the snapshot; an undelivered one is added back, so each counter holds its
/// presses from before and during the send, unless it stands at `u32::MAX`.
pub proof fn law_send_conserves_presses(during: Seq<u32>, taken: Seq<u32>, delivered: bool, k: int)
    requires
        during.len() == KEY_COUNT,
        taken.len() == KEY_COUNT,
        0 <= k < KEY_COUNT,
    ensures
        delivered ==> after_send(during, taken, delivered)[k] == during[k]
            && crate::protocol::decode_snapshot_spec(snapshot_bytes(taken)) == Ok::<
            Seq<u32>,
            crate::protocol::SnapshotError,
        >(taken),
        !delivered && during[k] + taken[k] <= 0xffff_ffff ==> after_send(during, taken, delivered)[k]
            == during[k] + taken[k],
        !delivered && during[k] + taken[k] > 0xffff_ffff ==> after_send(during, taken, delivered)[k]
            == 0xffff_ffff,
{
    crate::protocol::law_snapshot_roundtrip(taken);
}

/// Only a key going down counts: a hook event is a press exactly when its
/// code is `HC_ACTION` (0) and its message is `WM_KEYDOWN` (0x100) or
/// `WM_SYSKEYDOWN` (0x104); every other event, key releases included,
/// leaves the counters as they were.
pub proof fn law_only_key_downs_count(counts: Seq<u32>, code: i32, message: usize, vk: u32)
    ensures
        key_down_event(code, message) <==> (code == 0 && (message == 0x100 || message == 0x104)),
        !(code == 0 && (message == 0x100 || message == 0x104)) ==> (if key_down_event(
            code,
            message,
        ) {
            with_press(counts, vk)
        } else {
            counts
        }) == counts,
{
}

/// A code outside the counted range changes no counter.
pub proof fn law_uncounted_codes_ignored(counts: Seq<u32>, vk: u32)
    requires
        vk >= KEY_COUNT,
    ensures
        with_press(counts, vk) == counts,
{
}

/// Giving a snapshot back adds it key by key, and a counter is held at
/// `u32::MAX` only when the sum does not fit.
pub proof fn law_restore_adds(counts: Seq<u32>, snapshot: Seq<u32>, i: int)
    requires
        counts.len() == KEY_COUNT,
        snapshot.len() == KEY_COUNT,
        0 <= i < KEY_COUNT,
    ensures
        counts[i] + snapshot[i] <= 0xffff_ffff ==> merged(counts, snapshot)[i] == counts[i]
            + snapshot[i],
        counts[i] + snapshot[i] > 0xffff_ffff ==> merged(counts, snapshot)[i] == 0xffff_ffff,
        merged(counts, snapshot).len() == KEY_COUNT,
{
}

/// A snapshot is idle exactly when no key was pressed: every one of its
/// counts is zero. One press anywhere makes it worth sending.
pub proof fn law_idle_means_no_press(snapshot: Seq<u32>, k: int)
    requires
        snapshot.len() == KEY_COUNT,
    ensures
        idle(snapshot) <==> (forall|i: int| 0 <= i < KEY_COUNT ==> snapshot[i] == 0),
        0 <= k < KEY_COUNT && snapshot[k] != 0 ==> !idle(snapshot),
        idle(zero_counts()),
{
}

} // verus!
