//! Bounded, versioned ring-buffer broadcast channel.
//!
//! The channel state is a fixed-capacity array of slots. Every send takes the
//! next slot round-robin and stamps it with a fresh version from a single
//! counter shared by all producers, so sends are totally ordered. Each
//! receiver keeps a private cursor (the last version it observed) and, on a
//! poll, takes the message with version `cursor + 1` when that message is
//! still retained, or else the oldest retained message newer than the cursor.
//! A receiver therefore never re-delivers a message, always makes forward
//! progress, and loses at most the messages that more than `capacity` newer
//! sends have overwritten.
//!
//! The channel state is passed explicitly to `send` and `recv_some`; the
//! thread-sharing wrappers (reference counting, per-slot locks, atomics) live
//! with the unverified I/O shell.

use vstd::arithmetic::div_mod::lemma_mod_add_multiples_vanish;
use vstd::arithmetic::div_mod::lemma_mod_bound;
use vstd::arithmetic::div_mod::lemma_mod_equivalence;
use vstd::prelude::*;

verus! {

/// One cell of the ring: the version of the last send that landed here
/// (0 when no send has) and that send's payload.
struct Slot<T> {
    version: usize,
    message: T,
}

/// The version held by slot `i` of a channel with capacity `cap` after
/// `sends` sends: the largest `k <= sends` with `(k - 1) % cap == i`,
/// or 0 when no send has landed in the slot yet.
pub open spec fn slot_version(sends: nat, cap: nat, i: nat) -> nat
    recommends
        cap >= 1,
        i < cap,
    decreases sends,
{
    if sends == 0 {
        0
    } else if ((sends - 1) as nat) % cap == i {
        sends
    } else {
        slot_version((sends - 1) as nat, cap, i)
    }
}

/// The version a receiver with cursor `cursor` observes next on a channel
/// with `sends` sends and capacity `cap` (meaningful only when
/// `cursor < sends`): version `cursor + 1` when it is still retained,
/// otherwise the oldest retained version, `sends - cap + 1`.
pub open spec fn catch_up_version(cursor: nat, sends: nat, cap: nat) -> nat {
    if cursor + cap >= sends {
        cursor + 1
    } else {
        (sends - cap + 1) as nat
    }
}

/// Shared state of one broadcast channel: the slots, the write cursor that
/// picks slots round-robin, and the version counter that orders all sends.
pub struct RingBuffer<T> {
    buffer: Vec<Slot<T>>,
    write_index: usize,
    version: usize,
    history: Ghost<Seq<T>>,
}

impl<T: Copy> RingBuffer<T> {
    /// Number of slots; fixed at creation.
    pub closed spec fn capacity(&self) -> nat {
        self.buffer@.len()
    }

    /// Every message ever sent on this channel, in send order.
    pub closed spec fn history(&self) -> Seq<T> {
        self.history@
    }

    /// Number of sends so far; also the version stamped on the newest one.
    pub open spec fn num_sends(&self) -> nat {
        self.history().len()
    }

    /// The channel's internal invariant: the version counter and write cursor
    /// track the send count, and each slot holds exactly the send that the
    /// round-robin policy last placed there.
    pub closed spec fn wf(&self) -> bool {
        &&& self.capacity() >= 1
        &&& self.num_sends() < usize::MAX
        &&& self.version == self.num_sends() + 1
        &&& self.write_index == self.num_sends()
        &&& forall|i: int|
            0 <= i < self.buffer@.len() ==> {
                let v = (#[trigger] self.buffer@[i]).version;
                &&& v == slot_version(self.num_sends(), self.capacity(), i as nat)
                &&& v > 0 ==> self.buffer@[i].message == self.history()[v - 1]
            }
    }

    /// Creates channel state with `capacity` slots, none of them written yet;
    /// `value` only fills the slots' payload cells.
    pub fn new(capacity: usize, value: T) -> (state: Self)
        requires
            capacity >= 1,
        ensures
            state.wf(),
            state.capacity() == capacity,
            state.history() == Seq::<T>::empty(),
    {
        let mut buffer: Vec<Slot<T>> = Vec::new();
        let mut i: usize = 0;
        while i < capacity
            invariant
                i <= capacity,
                buffer@.len() == i,
                forall|j: int|
                    0 <= j < i ==> (#[trigger] buffer@[j]).version == 0,
            decreases capacity - i,
        {
            buffer.push(Slot { version: 0, message: value });
            i = i + 1;
        }
        RingBuffer {
            buffer,
            write_index: 0,
            version: 1,
            history: Ghost(Seq::empty()),
        }
    }

    /// Creates a channel and sends `initial` on it as the first message, so
    /// every receiver, however late it is created, finds at least one
    /// message: the initial sentinel, until later sends overwrite it.
    /// Returns the state with one producer and one consumer handle.
    pub fn channel(capacity: usize, initial: T) -> (r: (Self, Sender, Receiver))
        requires
            capacity >= 1,
        ensures
            r.0.wf(),
            r.0.capacity() == capacity,
            r.0.history() == seq![initial],
            r.2.cursor() == 0,
    {
        let mut state = Self::new(capacity, initial);
        state.send(initial);
        proof {
            assert(state.history() =~= seq![initial]);
        }
        (state, Sender {}, Receiver { last_version: 0 })
    }

    /// Publishes `new_message`: stamps it with the next version and stores it
    /// in the next slot round-robin, overwriting the slot's previous message.
    pub fn send(&mut self, new_message: T)
        requires
            old(self).wf(),
            old(self).num_sends() + 1 < usize::MAX,
        ensures
            final(self).wf(),
            final(self).capacity() == old(self).capacity(),
            final(self).history() == old(self).history().push(new_message),
    {
        let ghost sends = self.num_sends();
        let ghost cap = self.capacity();
        let index = self.write_index % self.buffer.len();
        proof {
            lemma_mod_bound(self.write_index as int, self.buffer@.len() as int);
        }
        self.write_index = self.write_index + 1;
        let version = self.version;
        self.version = self.version + 1;
        self.buffer.set(index, Slot { version, message: new_message });
        self.history = Ghost(self.history@.push(new_message));
        proof {
            assert forall|i: int| 0 <= i < self.buffer@.len() implies {
                let v = (#[trigger] self.buffer@[i]).version;
                &&& v == slot_version(self.num_sends(), self.capacity(), i as nat)
                &&& v > 0 ==> self.buffer@[i].message == self.history()[v - 1]
            } by {
                lemma_slot_version_le(sends, cap, i as nat);
                if i != index {
                    assert(slot_version(sends + 1, cap, i as nat) == slot_version(
                        sends,
                        cap,
                        i as nat,
                    ));
                }
            }
        }
    }
}

/// Producer handle for a channel. Producers keep no state of their own: a
/// send acts directly on the shared channel state, and any number of senders
/// may share one channel.
pub struct Sender {}

impl Sender {
    /// Publishes `value` on `state`; identical to [`RingBuffer::send`].
    pub fn send<T: Copy>(&self, state: &mut RingBuffer<T>, value: T)
        requires
            old(state).wf(),
            old(state).num_sends() + 1 < usize::MAX,
        ensures
            final(state).wf(),
            final(state).capacity() == old(state).capacity(),
            final(state).history() == old(state).history().push(value),
    {
        state.send(value);
    }

    /// A clone of a sender is interchangeable with the original.
    pub fn cloned(&self) -> Sender {
        Sender {}
    }
}

/// Consumer handle: a private cursor holding the version of the last message
/// this receiver observed. Receivers never remove messages, so any number of
/// them can share one channel without affecting each other.
pub struct Receiver {
    last_version: usize,
}

impl Receiver {
    /// The version of the last message this receiver observed; 0 before the
    /// first successful poll.
    pub closed spec fn cursor(&self) -> nat {
        self.last_version as nat
    }

    /// A clone of a receiver shares the channel but restarts its cursor at 0,
    /// so it re-observes the whole retained history.
    pub fn cloned(&self) -> (r: Receiver)
        ensures
            r.cursor() == 0,
    {
        Receiver { last_version: 0 }
    }

    /// One poll: returns the message with version `cursor + 1` when it is
    /// still retained, else the oldest retained message newer than the
    /// cursor, advancing the cursor to the returned version; returns `None`,
    /// leaving the cursor alone, when nothing newer than the cursor exists.
    #[verifier::loop_isolation(false)]
    pub fn recv_some<T: Copy>(&mut self, state: &RingBuffer<T>) -> (r: Option<T>)
        requires
            state.wf(),
        ensures
            r is Some <==> old(self).cursor() < state.num_sends(),
            old(self).cursor() < state.num_sends() ==> {
                let v = catch_up_version(old(self).cursor(), state.num_sends(), state.capacity());
                &&& final(self).cursor() == v
                &&& r == Some(state.history()[v - 1])
            },
            r is None ==> *final(self) == *old(self),
    {
        let ghost c = self.cursor();
        let ghost sends = state.num_sends();
        let ghost cap = state.capacity();
        proof {
            if c < sends && c + cap >= sends {
                lemma_slot_version_coverage(sends, cap, c + 1);
            }
        }
        if self.last_version == usize::MAX {
            // The cursor can never pass the newest version, which fits in
            // usize, so a saturated cursor has nothing left to observe.
            proof {
                assert(c >= sends);
            }
            return None;
        }
        let current_version = self.last_version + 1;

        let mut j: usize = 0;
        while j < state.buffer.len()
            invariant
                state.wf(),
                current_version == c + 1,
                self.last_version == old(self).last_version,
                j <= state.buffer@.len(),
                forall|m: int|
                    0 <= m < j ==> (#[trigger] state.buffer@[m]).version != current_version,
            decreases state.buffer@.len() - j,
        {
            if state.buffer[j].version == current_version {
                self.last_version = current_version;
                proof {
                    lemma_slot_version_le(sends, cap, j as nat);
                    lemma_slot_version_live(sends, cap, j as nat);
                    assert(catch_up_version(c, sends, cap) == c + 1);
                }
                return Some(state.buffer[j].message);
            }
            j = j + 1;
        }

        // Version cursor + 1 is not retained: it was either never sent or
        // already overwritten. Fall back to the oldest version above the
        // cursor, which the slot with the smallest such version holds.
        let mut best: usize = 0;
        let mut best_version: usize = 0;
        let mut k: usize = 0;
        while k < state.buffer.len()
            invariant
                state.wf(),
                self.last_version == old(self).last_version,
                k <= state.buffer@.len(),
                best_version > 0 ==> best < state.buffer@.len(),
                best_version > 0 ==> state.buffer@[best as int].version == best_version,
                best_version > 0 ==> best_version > c + 1,
                forall|m: int|
                    0 <= m < k ==> {
                        let v = (#[trigger] state.buffer@[m]).version;
                        v > c ==> best_version > 0 && best_version <= v
                    },
                current_version == c + 1,
                forall|m: int|
                    0 <= m < state.buffer@.len() ==> (#[trigger] state.buffer@[m]).version != c
                        + 1,
            decreases state.buffer@.len() - k,
        {
            let v = state.buffer[k].version;
            if v > current_version && (best_version == 0 || v < best_version) {
                best = k;
                best_version = v;
            }
            proof {
                if v > c {
                    assert(v != c + 1);
                    assert(v > current_version);
                }
            }
            k = k + 1;
        }

        if best_version > 0 {
            proof {
                lemma_slot_version_le(sends, cap, best as nat);
                lemma_slot_version_live(sends, cap, best as nat);
                // best_version > c + 1 and it is retained, so c + 1 itself was
                // overwritten: the oldest retained version exceeds c + 1.
                assert(c < sends);
                if c + cap >= sends {
                    // Then c + 1 would still be retained, but no slot holds it.
                    lemma_mod_bound(c as int, cap as int);
                    assert(((c + 1 - 1) as nat) % cap == c % cap);
                    assert(state.buffer@[(c % cap) as int].version == slot_version(
                        sends,
                        cap,
                        c % cap,
                    ));
                    assert(false);
                }
                let oldest = (sends - cap + 1) as nat;
                lemma_slot_version_coverage(sends, cap, oldest);
                lemma_mod_bound((oldest - 1) as int, cap as int);
                assert(state.buffer@[(((oldest - 1) as nat) % cap) as int].version == oldest);
                assert(best_version <= oldest);
                assert(best_version >= oldest);
            }
            self.last_version = best_version;
            return Some(state.buffer[best].message);
        }

        proof {
            // No slot holds a version above the cursor, so the newest send
            // does not either: the receiver is fully caught up.
            if c < sends {
                lemma_slot_version_coverage(sends, cap, sends);
                lemma_mod_bound((sends - 1) as int, cap as int);
                assert(state.buffer@[(((sends - 1) as nat) % cap) as int].version == sends);
                assert(false);
            }
        }
        None
    }
}

/// Law: the versions one receiver observes increase strictly, each observed
/// version is at most `cap` behind the newest send, and a receiver that has
/// polled after every send (so that at most `cap` sends separate its cursor
/// from the newest version) observes the very next version — it misses
/// nothing, and the gap between consecutive observations never exceeds `cap`.
pub proof fn lemma_observed_versions(cursor: nat, sends: nat, cap: nat)
    requires
        cap >= 1,
        cursor < sends,
    ensures
        cursor < catch_up_version(cursor, sends, cap) <= sends,
        catch_up_version(cursor, sends, cap) + cap > sends,
        sends <= cursor + cap ==> catch_up_version(cursor, sends, cap) == cursor + 1,
{
}

/// Law: a receiver cloned after the channel has carried `sends` sends starts
/// at cursor 0 and, on its first poll, observes version 1 — the whole
/// retained history, initial sentinel included — when at most `cap` sends
/// have occurred, and the oldest retained version `sends - cap + 1`
/// otherwise; since every channel is created with one send already on it,
/// such a receiver is never left without a message.
pub proof fn lemma_fresh_receiver_first_poll(sends: nat, cap: nat)
    requires
        cap >= 1,
        sends >= 1,
    ensures
        catch_up_version(0, sends, cap) == if sends <= cap {
            1nat
        } else {
            (sends - cap + 1) as nat
        },
        catch_up_version(0, sends, cap) > sends - cap,
{
}

/// Law: reads do not consume. A poll borrows the channel state immutably, so
/// it removes nothing, and both the version it observes and the message (the
/// history at that version) are functions of the receiver's cursor and the
/// channel's history alone: receivers with equal cursors observe equal
/// values, on a first poll and on every repeated one.
pub proof fn lemma_poll_is_deterministic<T: Copy>(state: &RingBuffer<T>, c1: nat, c2: nat)
    requires
        state.wf(),
        c1 == c2,
        c1 < state.num_sends(),
    ensures
        catch_up_version(c1, state.num_sends(), state.capacity()) == catch_up_version(
            c2,
            state.num_sends(),
            state.capacity(),
        ),
        state.history()[catch_up_version(c1, state.num_sends(), state.capacity()) - 1]
            == state.history()[catch_up_version(c2, state.num_sends(), state.capacity()) - 1],
{
}

/// Law: a message that more than `cap` newer sends have overwritten before a
/// receiver polls is never delivered to that receiver: the poll resumes past
/// it, and the cursor only ever grows. Rapid sends that outrun a consumer —
/// file changes arriving faster than the command runner drains them — thus
/// collapse, and the consumer reacts at most once to each message it does
/// observe.
pub proof fn lemma_overwritten_messages_skipped(cursor: nat, sends: nat, cap: nat, v: nat)
    requires
        cap >= 1,
        cursor < v,
        v + cap <= sends,
    ensures
        catch_up_version(cursor, sends, cap) > v,
{
}

/// Law: once sends stop (say after a shutdown message), every receiver
/// reaches the newest version within `cap` polls: its first poll lands
/// within the newest `cap` versions, and each later poll advances its cursor
/// by exactly one, so no receiver blocks indefinitely or re-reads.
pub proof fn lemma_catch_up_bounded(cursor: nat, sends: nat, cap: nat)
    requires
        cap >= 1,
        cursor < sends,
    ensures
        sends - catch_up_version(cursor, sends, cap) < cap,
        catch_up_version(cursor, sends, cap) < sends ==> catch_up_version(
            catch_up_version(cursor, sends, cap),
            sends,
            cap,
        ) == catch_up_version(cursor, sends, cap) + 1,
{
}

/// A slot's version never exceeds the send count.
proof fn lemma_slot_version_le(sends: nat, cap: nat, i: nat)
    requires
        cap >= 1,
        i < cap,
    ensures
        slot_version(sends, cap, i) <= sends,
    decreases sends,
{
    if sends > 0 && ((sends - 1) as nat) % cap != i {
        lemma_slot_version_le((sends - 1) as nat, cap, i);
    }
}

/// A written slot holds one of the `cap` newest versions, and one whose
/// residue matches the slot's position.
proof fn lemma_slot_version_live(sends: nat, cap: nat, i: nat)
    requires
        cap >= 1,
        i < cap,
    ensures
        slot_version(sends, cap, i) > 0 ==> slot_version(sends, cap, i) + cap > sends,
        slot_version(sends, cap, i) > 0 ==> ((slot_version(sends, cap, i) - 1) as nat) % cap == i,
    decreases sends,
{
    if sends > 0 && ((sends - 1) as nat) % cap != i {
        lemma_slot_version_live((sends - 1) as nat, cap, i);
        let v = slot_version(sends, cap, i);
        if v > 0 && v + cap == sends {
            // Then `sends - 1` and `v - 1` differ by exactly `cap` and would
            // share a residue, contradicting the branch condition.
            lemma_mod_add_multiples_vanish((v - 1) as int, cap as int);
            assert(((sends - 1) as nat) % cap == ((v - 1) as nat) % cap);
        }
    }
}

/// Every one of the `cap` newest versions is held by the slot its residue
/// names: version `k` lives in slot `(k - 1) % cap`.
proof fn lemma_slot_version_coverage(sends: nat, cap: nat, k: nat)
    requires
        cap >= 1,
        1 <= k <= sends,
        k + cap > sends,
    ensures
        slot_version(sends, cap, ((k - 1) as nat) % cap) == k,
    decreases sends,
{
    lemma_mod_bound((k - 1) as int, cap as int);
    let i = ((k - 1) as nat) % cap;
    if k == sends {
        assert(slot_version(sends, cap, i) == sends);
    } else {
        if ((sends - 1) as nat) % cap == i {
            // Impossible: `sends - 1` and `k - 1` differ by less than `cap`
            // but by more than 0, so their residues differ.
            lemma_mod_equivalence((sends - 1) as int, (k - 1) as int, cap as int);
            assert((sends - k) % (cap as int) == 0);
            lemma_mod_bound((sends - k) as int, cap as int);
            assert(0 < sends - k < cap);
            vstd::arithmetic::div_mod::lemma_small_mod((sends - k) as nat, cap);
            assert(false);
        }
        lemma_slot_version_coverage((sends - 1) as nat, cap, k);
    }
}

} // verus!
