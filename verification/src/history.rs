//! The record of edits: a ring of fixed capacity that forgets its oldest
//! entry when a new one arrives and there is no room left.

use vstd::prelude::*;
use vstd::arithmetic::power2::is_pow2;
use ringbuffer::AllocRingBuffer;
use ringbuffer::RingBuffer;
use ringbuffer::RingBufferExt;
use ringbuffer::RingBufferWrite;
use crate::cursor::Cursor;

verus! {

/// One recorded change to the text.
#[derive(Debug, Clone, Copy, PartialEq, Eq, Structural)]
pub enum Edit {
    /// The character `ch` was inserted at `char_idx` while the caret stood at `point`.
    Insert { char_idx: usize, ch: char, point: Cursor },
    /// The character `ch` was removed from `char_idx` while the caret stood at `point`.
    Delete { char_idx: usize, ch: char, point: Cursor },
    /// The edits that follow, as many as given, undo and redo as one step.
    Group(usize),
}

/// The largest capacity a history can be made with.
pub const MAX_HISTORY_CAPACITY: usize = 0x10_0000;

/// The number of pushes after which a history moves its entries into a fresh ring.
const RING_PUSH_LIMIT: usize = 0x100_0000;

/// The newest `n` entries of `s`, oldest first; all of `s` if it holds no more.
pub open spec fn newest(s: Seq<Edit>, n: nat) -> Seq<Edit> {
    if s.len() <= n {
        s
    } else {
        s.subrange(s.len() - n, s.len() as int)
    }
}

/// What a history of capacity `cap` that held `s` holds after the entries of
/// `es` were pushed onto it one by one.
pub open spec fn pushed_all(s: Seq<Edit>, cap: nat, es: Seq<Edit>) -> Seq<Edit>
    decreases es.len(),
{
    if es.len() == 0 {
        s
    } else {
        newest(pushed_all(s, cap, es.drop_last()).push(es.last()), cap)
    }
}

/// `ringbuffer::AllocRingBuffer`, of which nothing is known but what the
/// functions below say.
#[verifier::external_type_specification]
#[verifier::external_body]
#[verifier::reject_recursive_types(T)]
pub struct ExAllocRingBuffer<T>(AllocRingBuffer<T>);

/// The entries that a ring holds, from the one pushed longest ago to the one
/// pushed last.
pub uninterp spec fn ring_items(ring: AllocRingBuffer<Edit>) -> Seq<Edit>;

/// The capacity that a ring was made with.
pub uninterp spec fn ring_capacity(ring: AllocRingBuffer<Edit>) -> nat;

/// The number of pushes that a ring has taken since it was made. The ring
/// counts them in a machine word and never resets the count.
pub uninterp spec fn ring_pushes(ring: AllocRingBuffer<Edit>) -> nat;

/// `ringbuffer::AllocRingBuffer::with_capacity`: an empty ring of the given
/// capacity. It panics on zero and on a capacity that is no power of two,
/// and asks at once for room for that many entries, which the limit on the
/// capacity keeps to a size that can be asked for.
#[verifier::external_body]
fn ring_with_capacity(capacity: usize) -> (ring: AllocRingBuffer<Edit>)
    requires
        is_pow2(capacity as int),
        capacity <= MAX_HISTORY_CAPACITY,
    ensures
        ring_items(ring) == Seq::<Edit>::empty(),
        ring_capacity(ring) == capacity,
        ring_pushes(ring) == 0,
{
    AllocRingBuffer::with_capacity(capacity)
}

/// `ringbuffer::RingBufferWrite::push` on an `AllocRingBuffer`: the entry is
/// added as the newest, after the oldest was dropped if the ring was full.
/// The ring counts its pushes in a machine word; the limit on their number
/// keeps that count from running over.
#[verifier::external_body]
fn ring_push(ring: &mut AllocRingBuffer<Edit>, edit: Edit)
    requires
        ring_items(*old(ring)).len() <= ring_capacity(*old(ring)),
        ring_pushes(*old(ring)) < RING_PUSH_LIMIT,
    ensures
        ring_items(*final(ring)) == newest(
            ring_items(*old(ring)).push(edit),
            ring_capacity(*old(ring)),
        ),
        ring_capacity(*final(ring)) == ring_capacity(*old(ring)),
        ring_pushes(*final(ring)) == ring_pushes(*old(ring)) + 1,
    no_unwind
{
    ring.push(edit)
}

/// `ringbuffer::RingBuffer::len` on an `AllocRingBuffer`: the number of
/// entries held.
#[verifier::external_body]
fn ring_len(ring: &AllocRingBuffer<Edit>) -> (n: usize)
    ensures
        n == ring_items(*ring).len(),
{
    ring.len()
}

/// `ringbuffer::RingBufferExt::get` on an `AllocRingBuffer`, with an index
/// from `0`, the oldest entry, to below the length. The ring adds the index
/// to its count of pushes as a signed word; the limit on their number keeps
/// that sum from running over.
#[verifier::external_body]
fn ring_get(ring: &AllocRingBuffer<Edit>, index: usize) -> (edit: Option<Edit>)
    requires
        index < ring_items(*ring).len(),
        ring_pushes(*ring) <= RING_PUSH_LIMIT,
    ensures
        edit == Some(ring_items(*ring)[index as int]),
{
    ring.get(index as isize).copied()
}

/// Whether `n` is a power of two.
pub fn is_power_of_two(n: usize) -> (yes: bool)
    ensures
        yes == is_pow2(n as int),
{
    if n == 0 {
        proof {
            reveal(is_pow2);
        }
        return false;
    }
    let mut m: usize = n;
    while m % 2 == 0
        invariant
            m > 0,
            is_pow2(m as int) == is_pow2(n as int),
        decreases m,
    {
        proof {
            reveal(is_pow2);
        }
        m = m / 2;
    }
    proof {
        reveal(is_pow2);
    }
    m == 1
}

/// A bounded record of the latest edits, oldest first.
pub struct EditHistory {
    ring: AllocRingBuffer<Edit>,
    capacity: usize,
    pushes: usize,
}

impl View for EditHistory {
    type V = Seq<Edit>;

    closed spec fn view(&self) -> Seq<Edit> {
        ring_items(self.ring)
    }
}

impl EditHistory {
    #[verifier::type_invariant]
    spec fn well_formed(&self) -> bool {
        &&& ring_items(self.ring).len() <= ring_capacity(self.ring)
        &&& ring_capacity(self.ring) == self.capacity
        &&& is_pow2(self.capacity as int)
        &&& self.capacity <= MAX_HISTORY_CAPACITY
        &&& ring_pushes(self.ring) <= self.pushes <= RING_PUSH_LIMIT
    }

    /// The number of entries that the history keeps at most.
    pub closed spec fn spec_capacity(&self) -> nat {
        self.capacity as nat
    }

    /// An empty history that keeps the latest `capacity` edits. The capacity
    /// has to be a power of two and no more than [`MAX_HISTORY_CAPACITY`].
    pub fn with_capacity(capacity: usize) -> (history: Option<Self>)
        ensures
            history is Some <==> is_pow2(capacity as int) && capacity <= MAX_HISTORY_CAPACITY,
            history matches Some(h) ==> h@ == Seq::<Edit>::empty() && h.spec_capacity()
                == capacity,
    {
        if !is_power_of_two(capacity) || capacity > MAX_HISTORY_CAPACITY {
            return None;
        }
        Some(EditHistory { ring: ring_with_capacity(capacity), capacity, pushes: 0 })
    }

    /// The number of entries that the history keeps at most.
    pub fn capacity(&self) -> (n: usize)
        ensures
            n == self.spec_capacity(),
            is_pow2(n as int),
            n <= MAX_HISTORY_CAPACITY,
    {
        proof {
            use_type_invariant(self);
        }
        self.capacity
    }

    /// The number of entries that the history holds: never more than its capacity.
    pub fn len(&self) -> (n: usize)
        ensures
            n == self@.len(),
            n <= self.spec_capacity(),
    {
        proof {
            use_type_invariant(self);
        }
        ring_len(&self.ring)
    }

    /// Whether the history holds no entry.
    pub fn is_empty(&self) -> (yes: bool)
        ensures
            yes == (self@.len() == 0),
    {
        ring_len(&self.ring) == 0
    }

    /// Whether the next push will drop the oldest entry.
    pub fn is_full(&self) -> (yes: bool)
        ensures
            yes == (self@.len() == self.spec_capacity()),
    {
        proof {
            use_type_invariant(self);
        }
        ring_len(&self.ring) == self.capacity
    }

    /// The entry at `index`, counted from the oldest, if the history holds
    /// that many.
    pub fn get(&self, index: usize) -> (edit: Option<Edit>)
        ensures
            index < self@.len() ==> edit == Some(self@[index as int]),
            index >= self@.len() ==> edit is None,
    {
        proof {
            use_type_invariant(self);
        }
        if index >= ring_len(&self.ring) {
            return None;
        }
        ring_get(&self.ring, index)
    }

    /// The entry that was pushed `back` pushes before the latest one, if the
    /// history still holds it: `0` gives the newest entry.
    pub fn newest_at(&self, back: usize) -> (edit: Option<Edit>)
        ensures
            back < self@.len() ==> edit == Some(self@[self@.len() - 1 - back]),
            back >= self@.len() ==> edit is None,
    {
        proof {
            use_type_invariant(self);
        }
        let n = ring_len(&self.ring);
        if back >= n {
            return None;
        }
        ring_get(&self.ring, n - 1 - back)
    }

    /// The entries held, oldest first.
    pub fn to_vec(&self) -> (edits: Vec<Edit>)
        ensures
            edits@ == self@,
    {
        proof {
            use_type_invariant(self);
        }
        let n = ring_len(&self.ring);
        let mut edits: Vec<Edit> = Vec::new();
        let mut i: usize = 0;
        while i < n
            invariant
                i <= n,
                n == ring_items(self.ring).len(),
                ring_pushes(self.ring) <= RING_PUSH_LIMIT,
                edits@ == ring_items(self.ring).subrange(0, i as int),
            decreases n - i,
        {
            match ring_get(&self.ring, i) {
                Some(edit) => {
                    edits.push(edit);
                },
                None => {},
            }
            assert(ring_items(self.ring).subrange(0, i + 1) =~= ring_items(self.ring).subrange(
                0,
                i as int,
            ).push(ring_items(self.ring)[i as int]));
            i += 1;
        }
        assert(ring_items(self.ring).subrange(0, n as int) =~= ring_items(self.ring));
        edits
    }

    /// Records `edit` as the newest entry. A full history drops its oldest
    /// entry to make room; the capacity stays as it is.
    pub fn push(&mut self, edit: Edit)
        ensures
            final(self)@ == newest(old(self)@.push(edit), old(self).spec_capacity()),
            final(self).spec_capacity() == old(self).spec_capacity(),
    {
        proof {
            use_type_invariant(&*self);
        }
        if self.pushes >= RING_PUSH_LIMIT {
            self.renew();
        }
        proof {
            use_type_invariant(&*self);
            reveal(is_pow2);
        }
        self.pushes = self.pushes + 1;
        ring_push(&mut self.ring, edit);
    }

    /// Moves the entries into a fresh ring, which has taken only as many
    /// pushes as it holds entries.
    fn renew(&mut self)
        requires
            old(self).pushes == RING_PUSH_LIMIT,
        ensures
            final(self)@ == old(self)@,
            final(self).capacity == old(self).capacity,
            final(self).pushes <= MAX_HISTORY_CAPACITY,
    {
        proof {
            use_type_invariant(&*self);
        }
        let n = ring_len(&self.ring);
        let mut fresh = ring_with_capacity(self.capacity);
        let mut i: usize = 0;
        while i < n
            invariant
                i <= n,
                n == ring_items(self.ring).len(),
                n <= self.capacity <= MAX_HISTORY_CAPACITY,
                ring_pushes(self.ring) <= RING_PUSH_LIMIT,
                ring_capacity(fresh) == self.capacity,
                ring_pushes(fresh) == i,
                ring_items(fresh) == ring_items(self.ring).subrange(0, i as int),
            decreases n - i,
        {
            match ring_get(&self.ring, i) {
                Some(edit) => {
                    ring_push(&mut fresh, edit);
                },
                None => {},
            }
            assert(ring_items(self.ring).subrange(0, i + 1) =~= ring_items(self.ring).subrange(
                0,
                i as int,
            ).push(ring_items(self.ring)[i as int]));
            i += 1;
        }
        assert(ring_items(self.ring).subrange(0, n as int) =~= ring_items(self.ring));
        self.ring = fresh;
        self.pushes = n;
    }
}

/// Whatever a history held, once at least as many edits as its capacity have
/// been pushed it holds exactly the newest of them, as many as its capacity,
/// in the order in which they were pushed; every older one is gone.
pub proof fn lemma_history_keeps_newest(s: Seq<Edit>, cap: nat, es: Seq<Edit>)
    requires
        0 < cap,
        s.len() <= cap,
    ensures
        pushed_all(s, cap, es) == newest(s + es, cap),
        es.len() >= cap ==> pushed_all(s, cap, es) == es.subrange(es.len() - cap, es.len() as int),
        es.len() >= cap ==> pushed_all(s, cap, es).len() == cap,
    decreases es.len(),
{
    if es.len() == 0 {
        assert(s + es =~= s);
    } else {
        let head = es.drop_last();
        lemma_history_keeps_newest(s, cap, head);
        assert((s + head).push(es.last()) =~= s + es);
        assert(newest(newest(s + head, cap).push(es.last()), cap) =~= newest(s + es, cap));
        if es.len() >= cap {
            assert(newest(s + es, cap) =~= es.subrange(es.len() - cap, es.len() as int));
        }
    }
}

} // verus!
