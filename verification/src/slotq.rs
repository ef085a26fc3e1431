//! Protocol-neutral command-slot engine, in two independent pieces.
//!
//! [`SlotArray`] owns the preallocated slots, the tag freelist, the count of
//! executing slots that gates teardown, and the data-buffer pool the slots
//! lease from; `C` is the per-slot command stash. [`SendList`] is the ordered
//! work queue a transport's send loop drains. The wire transfer tag is the
//! slot index, so no lookup structure exists.

use vstd::prelude::*;

use crate::pool::{BufPool, Seg, SlotData};

verus! {

/// Slot lifecycle.
#[derive(Debug, Clone, Copy, PartialEq, Eq, Structural)]
pub enum SlotState {
    /// On the freelist.
    Free,
    /// Claimed by the receive path; command or payload being filled.
    Receiving,
    /// Command complete on the wire side; slot task wakeable.
    Ready,
    /// Slot task is dispatching or awaiting the backend.
    Executing,
    /// Completion queued for, or being written by, the send path.
    Responding,
}

/// One preallocated command slot.
pub struct Slot<C: Copy> {
    pub state: SlotState,
    /// The received command (placed by the receive path before `Ready`).
    pub cmd: C,
    /// Data buffer: write payload in, read payload out. Empty between commands.
    pub data: SlotData,
    /// Valid bytes in `data` (received payload or response data).
    pub data_len: u32,
    /// Reassembly cursor for multi-step payload receives.
    pub recv_offset: u32,
}

impl<C: Copy> Slot<C> {
    fn new(init: C) -> (slot: Slot<C>)
        ensures
            slot.state is Free,
            slot.cmd == init,
            slot.data.owner is Empty,
            slot.data_len == 0,
            slot.recv_offset == 0,
            forall|pool: BufPool| #[trigger] slot.data.wf(pool),
    {
        Slot { state: SlotState::Free, cmd: init, data: SlotData::empty(), data_len: 0, recv_offset: 0 }
    }

    pub fn state(&self) -> (s: SlotState)
        ensures
            s == self.state,
    {
        self.state
    }

    pub fn cmd(&self) -> (c: C)
        ensures
            c == self.cmd,
    {
        self.cmd
    }

    /// The slot's data buffer.
    pub fn data(&self) -> (d: &SlotData)
        ensures
            *d == self.data,
    {
        &self.data
    }

    pub fn data_len(&self) -> (n: u32)
        ensures
            n == self.data_len,
    {
        self.data_len
    }

    pub fn set_data_len(&mut self, len: u32)
        ensures
            *final(self) == (Slot { data_len: len, ..*old(self) }),
    {
        self.data_len = len;
    }

    pub fn recv_offset(&self) -> (n: u32)
        ensures
            n == self.recv_offset,
    {
        self.recv_offset
    }

    pub fn set_recv_offset(&mut self, off: u32)
        ensures
            *final(self) == (Slot { recv_offset: off, ..*old(self) }),
    {
        self.recv_offset = off;
    }

    /// Park the command while its payload is still arriving (the state stays
    /// `Receiving`; [`SlotArray::submit`] delivers it).
    pub fn stash_cmd(&mut self, cmd: C)
        requires
            old(self).state is Receiving,
        ensures
            *final(self) == (Slot { cmd, ..*old(self) }),
    {
        self.cmd = cmd;
    }

    /// Install a data buffer for the command about to use it; returns the one
    /// it replaces, whose life the caller ends.
    pub fn set_data(&mut self, data: SlotData) -> (replaced: SlotData)
        ensures
            replaced == old(self).data,
            *final(self) == (Slot { data, ..*old(self) }),
    {
        let mut other: SlotData = data;
        std::mem::swap(&mut self.data, &mut other);
        other
    }

    /// Take the data buffer out, leaving the slot without one.
    pub fn release_data(&mut self) -> (replaced: SlotData)
        ensures
            replaced == old(self).data,
            final(self).data.owner is Empty,
            forall|pool: BufPool| #[trigger] final(self).data.wf(pool),
            *final(self) == (Slot { data: final(self).data, ..*old(self) }),
    {
        self.set_data(SlotData::empty())
    }
}

/// How many of the slots are executing.
pub open spec fn executing_in<C: Copy>(slots: Seq<Slot<C>>) -> nat
    decreases slots.len(),
{
    if slots.len() == 0 {
        0
    } else {
        executing_in(slots.drop_last()) + (if slots.last().state is Executing {
            1nat
        } else {
            0
        })
    }
}

proof fn lemma_executing_update<C: Copy>(slots: Seq<Slot<C>>, i: int, s: Slot<C>)
    requires
        0 <= i < slots.len(),
    ensures
        executing_in(slots.update(i, s)) == executing_in(slots) - (if slots[i].state is Executing {
            1int
        } else {
            0
        }) + (if s.state is Executing {
            1int
        } else {
            0
        }),
        executing_in(slots) <= slots.len(),
        slots[i].state is Executing ==> executing_in(slots) > 0,
        !(slots[i].state is Executing) ==> executing_in(slots) < slots.len(),
    decreases slots.len(),
{
    let t = slots.update(i, s);
    lemma_executing_bound(slots.drop_last());
    if i == slots.len() - 1 {
        assert(t.drop_last() =~= slots.drop_last());
    } else {
        lemma_executing_update(slots.drop_last(), i, s);
        assert(t.drop_last() =~= slots.drop_last().update(i, s));
    }
}

proof fn lemma_executing_bound<C: Copy>(slots: Seq<Slot<C>>)
    ensures
        executing_in(slots) <= slots.len(),
    decreases slots.len(),
{
    if slots.len() > 0 {
        lemma_executing_bound(slots.drop_last());
    }
}

/// The preallocated slot set of one connection and the pool its slots lease
/// their data buffers from.
pub struct SlotArray<C: Copy> {
    /// Slot count: the most commands that can be in progress at once.
    pub nslots: u16,
    pub slots: Vec<Slot<C>>,
    pub free_tags: Vec<u16>,
    /// Slots inside dispatch, possibly awaiting a backend operation that
    /// references slot memory.
    pub executing: u16,
    /// The shared data-buffer arena.
    pub pool: BufPool,
    /// Receive-ring sub-buffers whose borrow has ended, oldest first, for the
    /// transport to hand back to the ring.
    pub ring_done: Vec<u16>,
}

impl<C: Copy> SlotArray<C> {
    /// The freelist is exactly the free slots, each once; leases are in force
    /// and share no page; `executing` is counted.
    pub open spec fn wf(&self) -> bool {
        &&& self.slots@.len() == self.nslots
        &&& self.pool.wf()
        &&& forall|t: int| 0 <= t < self.slots@.len() ==> (#[trigger] self.slots@[t]).data.wf(self.pool)
        &&& self.leases_apart()
        &&& self.freelist_wf()
        &&& self.executing == executing_in(self.slots@)
    }

    /// No two slots lease the same page.
    pub open spec fn leases_apart(&self) -> bool {
        forall|a: int, b: int|
            0 <= a < self.slots@.len() && 0 <= b < self.slots@.len() && a != b && (
            #[trigger] self.slots@[a]).data.owner is Pool && (#[trigger] self.slots@[b]).data.owner
                is Pool ==> crate::pool::disjoint(
                self.slots@[a].data.segs@,
                self.slots@[b].data.segs@,
            )
    }

    pub open spec fn freelist_wf(&self) -> bool {
        &&& self.free_tags@.no_duplicates()
        &&& forall|i: int|
            0 <= i < self.free_tags@.len() ==> (#[trigger] self.free_tags@[i]) < self.nslots
                && self.slots@[self.free_tags@[i] as int].state is Free
        &&& forall|t: u16|
            #![trigger self.free_tags@.contains(t)]
            t < self.nslots && self.slots@[t as int].state is Free ==> self.free_tags@.contains(t)
    }

    /// Only slot `tag` differs from `other`, and it is now `slot`.
    pub open spec fn slot_now(&self, other: &SlotArray<C>, tag: u16, slot: Slot<C>) -> bool {
        &&& self.slots@ == other.slots@.update(tag as int, slot)
        &&& self.nslots == other.nslots
        &&& self.pool == other.pool
        &&& self.ring_done@ == other.ring_done@
    }

    /// `nslots` free slots, each without a data buffer until it leases one,
    /// and a shared pool of `pool_bytes`.
    pub fn new(nslots: u16, pool_bytes: usize, init: C) -> (a: SlotArray<C>)
        requires
            pool_bytes + crate::pool::PAGE - 1 <= usize::MAX,
            crate::pool::pages_for(pool_bytes as int) <= u32::MAX,
        ensures
            a.wf(),
            a.nslots == nslots,
            a.executing == 0,
            a.ring_done@.len() == 0,
            a.free_tags@ == Seq::new(nslots as nat, |i: int| (nslots - 1 - i) as u16),
            forall|t: int|
                0 <= t < nslots ==> {
                    let s = #[trigger] a.slots@[t];
                    s.state is Free && s.cmd == init && s.data.owner is Empty && s.data_len == 0
                        && s.recv_offset == 0
                },
            a.pool.npages == crate::pool::pages_for(pool_bytes as int),
            a.pool.free@ == seq![crate::pool::Run { start: 0, len: a.pool.npages }],
            a.pool.free_pages == a.pool.npages,
            a.pool.buf_index is None,
            a.pool.send_arena is None,
    {
        let pool = BufPool::new(pool_bytes);
        let mut slots: Vec<Slot<C>> = Vec::new();
        // The freelist is popped from its end: tags come out 0, 1, 2, ...
        let mut free_tags: Vec<u16> = Vec::new();
        let mut i: u16 = 0;
        while i < nslots
            invariant
                i <= nslots,
                slots@.len() == i,
                free_tags@ == Seq::new(i as nat, |k: int| (nslots - 1 - k) as u16),
                forall|t: int|
                    0 <= t < i ==> {
                        let s = #[trigger] slots@[t];
                        s.state is Free && s.cmd == init && s.data.owner is Empty && s.data_len == 0
                            && s.recv_offset == 0 && s.data.wf(pool)
                    },
                executing_in(slots@) == 0,
            decreases nslots - i,
        {
            let ghost before = slots@;
            slots.push(Slot::new(init));
            free_tags.push(nslots - 1 - i);
            i += 1;
            proof {
                assert(slots@.drop_last() =~= before);
                assert(free_tags@ =~= Seq::new(i as nat, |k: int| (nslots - 1 - k) as u16));
            }
        }
        proof {
            assert forall|t: u16| t < nslots implies #[trigger] free_tags@.contains(t) by {
                assert(free_tags@[nslots - 1 - t] == t);
            }
        }
        SlotArray { nslots, slots, free_tags, executing: 0, pool, ring_done: Vec::new() }
    }

    /// The shared data-buffer pool.
    pub fn pool(&self) -> (p: &BufPool)
        ensures
            *p == self.pool,
    {
        &self.pool
    }

    /// The slot for `tag`.
    pub fn slot(&self, tag: u16) -> (s: &Slot<C>)
        requires
            tag < self.slots@.len(),
        ensures
            *s == self.slots@[tag as int],
    {
        &self.slots[tag as usize]
    }

    /// Claim a free tag for an arriving command; `None` when every slot is
    /// busy. The most recently released tag is reused first.
    pub fn claim_tag(&mut self) -> (r: Option<u16>)
        requires
            old(self).wf(),
        ensures
            final(self).wf(),
            match r {
                None => old(self).free_tags@.len() == 0 && *final(self) == *old(self),
                Some(tag) => tag_claimed(*old(self), *final(self), tag),
            },
    {
        let ghost pre = *self;
        if self.free_tags.len() == 0 {
            return None;
        }
        match self.free_tags.pop() {
            None => None,
            Some(tag) => {
                let i: usize = tag as usize;
                assert(pre.free_tags@[pre.free_tags@.len() - 1] == tag);
                self.slots[i].state = SlotState::Receiving;
                self.slots[i].data_len = 0;
                self.slots[i].recv_offset = 0;
                proof {
                    lemma_executing_update(pre.slots@, tag as int, self.slots@[tag as int]);
                    assert(self.slots@ =~= pre.slots@.update(tag as int, self.slots@[tag as int]));
                    assert forall|k: int| 0 <= k < self.free_tags@.len() implies (
                    #[trigger] self.free_tags@[k]) < self.nslots
                        && self.slots@[self.free_tags@[k] as int].state is Free by {
                        assert(pre.free_tags@[k] == self.free_tags@[k]);
                        assert(self.free_tags@[k] != tag);
                    }
                    assert forall|t: u16|
                        #![trigger self.free_tags@.contains(t)]
                        t < self.nslots && self.slots@[t as int].state is Free implies self.free_tags@.contains(
                    t) by {
                        assert(t != tag);
                        assert(pre.free_tags@.contains(t));
                        let k = choose|k: int|
                            0 <= k < pre.free_tags@.len() && pre.free_tags@[k] == t;
                        assert(self.free_tags@[k] == t);
                    }
                }
                Some(tag)
            },
        }
    }
}

proof fn lemma_step_wf<C: Copy>(pre: SlotArray<C>, post: SlotArray<C>, tag: int, slot: Slot<C>)
    requires
        pre.wf(),
        0 <= tag < pre.slots@.len(),
        post.slots@ == pre.slots@.update(tag, slot),
        post.nslots == pre.nslots,
        post.pool == pre.pool,
        post.free_tags@ == pre.free_tags@,
        slot.data == pre.slots@[tag].data,
        pre.slots@[tag].state is Free == slot.state is Free,
        post.executing == executing_in(post.slots@),
    ensures
        post.wf(),
{
    assert forall|k: int| 0 <= k < post.free_tags@.len() implies (#[trigger] post.free_tags@[k])
        < post.nslots && post.slots@[post.free_tags@[k] as int].state is Free by {
        assert(pre.free_tags@[k] == post.free_tags@[k]);
    }
    assert forall|t: u16|
        #![trigger post.free_tags@.contains(t)]
        t < post.nslots && post.slots@[t as int].state is Free implies post.free_tags@.contains(
    t) by {
        assert(pre.slots@[t as int].state is Free);
        assert(pre.free_tags@.contains(t));
    }
    assert(post.leases_apart()) by {
        assert forall|a: int, b: int|
            0 <= a < post.slots@.len() && 0 <= b < post.slots@.len() && a != b && (
            #[trigger] post.slots@[a]).data.owner is Pool && (#[trigger] post.slots@[b]).data.owner
                is Pool implies crate::pool::disjoint(
            post.slots@[a].data.segs@,
            post.slots@[b].data.segs@,
        ) by {
            assert(pre.slots@[a].data == post.slots@[a].data);
            assert(pre.slots@[b].data == post.slots@[b].data);
        }
    }
    assert forall|t: int| 0 <= t < post.slots@.len() implies (#[trigger] post.slots@[t]).data.wf(
        post.pool,
    ) by {
        assert(pre.slots@[t].data == post.slots@[t].data);
        assert(pre.slots@[t].data.wf(pre.pool));
    }
}

/// `src` was written into slot `tag`'s data at `off`; nothing else a slot
/// holds changed.
pub open spec fn slot_written<C: Copy>(
    pre: SlotArray<C>,
    post: SlotArray<C>,
    tag: u16,
    off: int,
    src: Seq<u8>,
) -> bool {
    let was = pre.slots@[tag as int];
    let now = post.slots@[tag as int];
    &&& now.data.bytes(post.pool) == crate::pool::overwritten(was.data.bytes(pre.pool), off, src)
    &&& post.slots@ == pre.slots@.update(tag as int, Slot { data: now.data, ..was })
    &&& now.data.segs@ == was.data.segs@
    &&& now.data.len == was.data.len
    &&& now.data.owner is Pool == was.data.owner is Pool
    &&& !(now.data.owner is Ring)
    &&& forall|t: int|
        0 <= t < pre.nslots && t != tag ==> (#[trigger] pre.slots@[t]).data.bytes(post.pool)
            == pre.slots@[t].data.bytes(pre.pool)
    &&& post.pool.free@ == pre.pool.free@
    &&& post.pool.free_pages == pre.pool.free_pages
    &&& post.pool.npages == pre.pool.npages
    &&& post.pool.buf_index == pre.pool.buf_index
    &&& post.pool.send_arena == pre.pool.send_arena
    &&& post.nslots == pre.nslots
    &&& post.free_tags@ == pre.free_tags@
    &&& post.executing == pre.executing
    &&& post.ring_done@ == pre.ring_done@
}

/// Slot `tag` now holds `slot`; nothing else changed.
pub open spec fn slot_set<C: Copy>(
    pre: SlotArray<C>,
    post: SlotArray<C>,
    tag: u16,
    slot: Slot<C>,
) -> bool {
    &&& post.slot_now(&pre, tag, slot)
    &&& post.free_tags@ == pre.free_tags@
    &&& post.executing == pre.executing
}

/// `tag` was taken off the freelist for a new command.
pub open spec fn tag_claimed<C: Copy>(pre: SlotArray<C>, post: SlotArray<C>, tag: u16) -> bool {
    &&& pre.free_tags@.len() > 0
    &&& tag == pre.free_tags@.last()
    &&& tag < pre.nslots
    &&& pre.slots@[tag as int].state is Free
    &&& post.free_tags@ == pre.free_tags@.drop_last()
    &&& post.slot_now(
        &pre,
        tag,
        Slot {
            state: SlotState::Receiving,
            data_len: 0,
            recv_offset: 0,
            ..pre.slots@[tag as int]
        },
    )
    &&& post.executing == pre.executing
}

/// `tag` went back on the freelist, its slot data released.
pub open spec fn tag_released<C: Copy>(pre: SlotArray<C>, post: SlotArray<C>, tag: u16) -> bool {
    &&& post.slots@ == pre.slots@.update(
        tag as int,
        Slot {
            state: SlotState::Free,
            data: post.slots@[tag as int].data,
            ..pre.slots@[tag as int]
        },
    )
    &&& post.slots@[tag as int].data.owner is Empty
    &&& post.nslots == pre.nslots
    &&& post.free_tags@ == pre.free_tags@.push(tag)
    &&& post.executing == pre.executing
    &&& crate::pool::gave_back(pre.slots@[tag as int].data, pre.pool, post.pool)
    &&& post.ring_done@ == pre.ring_done@ + crate::pool::ring_borrow(pre.slots@[tag as int].data)
}

/// Slot `tag` got a pool lease for `len` bytes, or a zeroed buffer of its own
/// where the pool has none.
pub open spec fn lease_made<C: Copy>(
    pre: SlotArray<C>,
    post: SlotArray<C>,
    tag: u16,
    len: int,
) -> bool {
    match crate::pool::alloc_plan(pre.pool.free@, crate::pool::pages_for(len)) {
        None => {
            let d = post.slots@[tag as int].data;
            &&& data_replaced(pre, post, tag, d, pre.pool)
            &&& d.owner is Owned
            &&& d.len == crate::pool::pages_for(len) * crate::pool::PAGE
            &&& d.segs@ == seq![Seg { off: 0, len: d.len }]
            &&& d.bytes(post.pool) == Seq::new(d.len as nat, |i: int| 0u8)
        },
        Some((taken, rest)) => leased_into(
            pre,
            post,
            tag,
            crate::pool::pages_for(len),
            taken,
            rest,
        ),
    }
}

/// Slot `tag` got a pool lease for `len` bytes if the pool has one.
pub open spec fn lease_tried<C: Copy>(
    pre: SlotArray<C>,
    post: SlotArray<C>,
    tag: u16,
    len: int,
    ok: bool,
) -> bool {
    match crate::pool::alloc_plan(pre.pool.free@, crate::pool::pages_for(len)) {
        None => !ok && post == pre,
        Some((taken, rest)) => ok && leased_into(
            pre,
            post,
            tag,
            crate::pool::pages_for(len),
            taken,
            rest,
        ),
    }
}

/// Slot `tag`'s buffer is now `data`, the one it replaces has ended its life,
/// and nothing else has changed; `pool` is the pool the new buffer was made in.
pub open spec fn data_replaced<C: Copy>(
    pre: SlotArray<C>,
    post: SlotArray<C>,
    tag: u16,
    data: SlotData,
    pool: BufPool,
) -> bool {
    &&& post.slots@ == pre.slots@.update(tag as int, Slot { data, ..pre.slots@[tag as int] })
    &&& post.nslots == pre.nslots
    &&& post.free_tags@ == pre.free_tags@
    &&& post.executing == pre.executing
    &&& crate::pool::gave_back(pre.slots@[tag as int].data, pool, post.pool)
    &&& post.ring_done@ == pre.ring_done@ + crate::pool::ring_borrow(pre.slots@[tag as int].data)
}

impl<C: Copy> SlotArray<C> {
    /// Every slot's buffer suits `pool`, which may have leased `new` out since.
    spec fn data_wf_in(&self, pool: BufPool) -> bool {
        forall|t: int| 0 <= t < self.slots@.len() ==> (#[trigger] self.slots@[t]).data.wf(pool)
    }

    /// Swap `data` into slot `tag` and end the life of what it replaces.
    fn put_data(&mut self, tag: u16, data: SlotData, Ghost(pre): Ghost<SlotArray<C>>)
        requires
            pre.wf(),
            tag < pre.nslots,
            old(self).slots@ == pre.slots@,
            old(self).nslots == pre.nslots,
            old(self).free_tags@ == pre.free_tags@,
            old(self).executing == pre.executing,
            old(self).ring_done@ == pre.ring_done@,
            old(self).pool.wf(),
            old(self).data_wf_in(old(self).pool),
            data.wf(old(self).pool),
            data.owner is Pool ==> forall|t: int|
                0 <= t < pre.slots@.len() && (#[trigger] pre.slots@[t]).data.owner is Pool
                    ==> crate::pool::disjoint(data.segs@, pre.slots@[t].data.segs@)
                    && crate::pool::disjoint(pre.slots@[t].data.segs@, data.segs@),
        ensures
            final(self).wf(),
            data_replaced(pre, *final(self), tag, data, old(self).pool),
    {
        let ghost mid = *self;
        let i: usize = tag as usize;
        let ghost gone = self.slots@[tag as int].data;
        let replaced: SlotData = self.slots[i].set_data(data);
        assert(self.slots@ =~= pre.slots@.update(tag as int, Slot { data, ..pre.slots@[tag as int] }));
        assert(replaced.wf(self.pool)) by {
            assert(pre.slots@[tag as int].data == replaced);
            assert(mid.slots@[tag as int].data.wf(mid.pool));
        }
        match replaced.release(&mut self.pool) {
            Some(bid) => {
                self.ring_done.push(bid);
                assert(self.ring_done@ =~= pre.ring_done@ + seq![bid]);
            },
            None => {
                assert(self.ring_done@ =~= pre.ring_done@ + seq![]);
            },
        }
        proof {
            let post = *self;
            lemma_executing_update(pre.slots@, tag as int, post.slots@[tag as int]);
            assert forall|t: int| 0 <= t < post.slots@.len() implies (
            #[trigger] post.slots@[t]).data.wf(post.pool) by {
                let d = post.slots@[t].data;
                if t == tag {
                    assert(d.wf(mid.pool));
                } else {
                    assert(d == mid.slots@[t].data);
                    assert(mid.slots@[t].data.wf(mid.pool));
                }
                if gone.owner is Pool && d.owner is Pool {
                    assert(crate::pool::disjoint(d.segs@, gone.segs@)) by {
                        if t != tag {
                            assert(pre.slots@[t].data.owner is Pool);
                            assert(pre.slots@[tag as int].data.owner is Pool);
                        } else {
                            assert(pre.slots@[tag as int].data.owner is Pool);
                        }
                    }
                    crate::pool::release_keeps_others(mid.pool, post.pool, gone.segs@, d.segs@);
                }
            }
            assert forall|a: int, b: int|
                0 <= a < post.slots@.len() && 0 <= b < post.slots@.len() && a != b && (
                #[trigger] post.slots@[a]).data.owner is Pool && (
                #[trigger] post.slots@[b]).data.owner is Pool implies crate::pool::disjoint(
                post.slots@[a].data.segs@,
                post.slots@[b].data.segs@,
            ) by {
                if a != tag {
                    assert(pre.slots@[a].data == post.slots@[a].data);
                }
                if b != tag {
                    assert(pre.slots@[b].data == post.slots@[b].data);
                }
            }
            assert forall|k: int| 0 <= k < post.free_tags@.len() implies (
            #[trigger] post.free_tags@[k]) < post.nslots
                && post.slots@[post.free_tags@[k] as int].state is Free by {
                assert(pre.free_tags@[k] == post.free_tags@[k]);
            }
            assert forall|t: u16|
                #![trigger post.free_tags@.contains(t)]
                t < post.nslots && post.slots@[t as int].state is Free implies post.free_tags@.contains(
            t) by {
                assert(pre.slots@[t as int].state is Free);
                assert(pre.free_tags@.contains(t));
            }
        }
    }

    /// Install `data` for slot `tag`'s command; the buffer it replaces ends its
    /// life.
    pub fn set_data(&mut self, tag: u16, data: SlotData)
        requires
            old(self).wf(),
            tag < old(self).nslots,
            data.wf(old(self).pool),
            !(data.owner is Pool),
        ensures
            final(self).wf(),
            data_replaced(*old(self), *final(self), tag, data, old(self).pool),
    {
        self.put_data(tag, data, Ghost(*self));
    }

    /// End the life of slot `tag`'s data buffer.
    pub fn release_data(&mut self, tag: u16)
        requires
            old(self).wf(),
            tag < old(self).nslots,
        ensures
            final(self).wf(),
            final(self).slots@[tag as int].data.owner is Empty,
            data_replaced(
                *old(self),
                *final(self),
                tag,
                final(self).slots@[tag as int].data,
                old(self).pool,
            ),
    {
        self.put_data(tag, SlotData::empty(), Ghost(*self));
    }

    /// Lease `len` bytes into slot `tag` from the pool only; `false`, and
    /// nothing changed, when the pool cannot satisfy the request right now.
    pub fn try_lease(&mut self, tag: u16, len: usize) -> (ok: bool)
        requires
            old(self).wf(),
            tag < old(self).nslots,
            len + crate::pool::PAGE - 1 <= usize::MAX,
        ensures
            final(self).wf(),
            lease_tried(*old(self), *final(self), tag, len as int, ok),
    {
        let ghost pre = *self;
        match self.pool.lease(len) {
            Some(data) => {
                proof {
                    self.lemma_after_lease(pre, data, len as int);
                }
                self.put_data(tag, data, Ghost(pre));
                true
            },
            None => false,
        }
    }

    /// Lease `len` bytes into slot `tag`, falling back to a private buffer
    /// when the pool cannot satisfy the request right now. Never blocks.
    pub fn lease_or_owned(&mut self, tag: u16, len: usize)
        requires
            old(self).wf(),
            tag < old(self).nslots,
            len + crate::pool::PAGE - 1 <= usize::MAX,
        ensures
            final(self).wf(),
            lease_made(*old(self), *final(self), tag, len as int),
    {
        if self.try_lease(tag, len) {
            return ;
        }
        let want: usize = if len < 1 { 1 } else { len };
        self.put_data(tag, SlotData::owned(want), Ghost(*self));
    }

    /// What a fresh lease means for the slots.
    proof fn lemma_after_lease(&self, pre: SlotArray<C>, data: SlotData, len: int)
        requires
            pre.wf(),
            self.slots@ == pre.slots@,
            0 <= len,
            self.pool.wf(),
            self.pool.same_but_free(&pre.pool),
            data.owner is Pool,
            crate::pool::alloc_plan(pre.pool.free@, crate::pool::pages_for(len)) matches Some(
                plan,
            ) && data.segs@ == crate::pool::lease_segs(plan.0) && self.pool.free@ == plan.1,
        ensures
            self.data_wf_in(self.pool),
            forall|t: int|
                0 <= t < pre.slots@.len() && (#[trigger] pre.slots@[t]).data.owner is Pool
                    ==> crate::pool::disjoint(data.segs@, pre.slots@[t].data.segs@)
                    && crate::pool::disjoint(pre.slots@[t].data.segs@, data.segs@),
    {
        let pages = crate::pool::pages_for(len);
        let plan = crate::pool::alloc_plan(pre.pool.free@, pages).unwrap();
        crate::pool::alloc_plan_splits(pre.pool.free@, pages, pre.pool.npages as int);
        crate::pool::lemma_lease_segs(plan.0, pre.pool.npages);
        assert forall|t: int| 0 <= t < self.slots@.len() implies (
        #[trigger] self.slots@[t]).data.wf(self.pool) && (self.slots@[t].data.owner is Pool
            ==> crate::pool::disjoint(data.segs@, self.slots@[t].data.segs@)
            && crate::pool::disjoint(self.slots@[t].data.segs@, data.segs@)) by {
            assert(pre.slots@[t].data.wf(pre.pool));
            if self.slots@[t].data.owner is Pool {
                crate::pool::lease_keeps_others(
                    pre.pool,
                    self.pool,
                    data.segs@,
                    self.slots@[t].data.segs@,
                );
            }
        }
        assert forall|t: int|
            0 <= t < pre.slots@.len() && (#[trigger] pre.slots@[t]).data.owner is Pool implies crate::pool::disjoint(
        data.segs@, pre.slots@[t].data.segs@) && crate::pool::disjoint(
            pre.slots@[t].data.segs@,
            data.segs@,
        ) by {
            assert(self.slots@[t].data == pre.slots@[t].data);
        }
    }

    pub fn set_data_len(&mut self, tag: u16, len: u32)
        requires
            old(self).wf(),
            tag < old(self).nslots,
        ensures
            final(self).wf(),
            final(self).slot_now(
                old(self),
                tag,
                Slot { data_len: len, ..old(self).slots@[tag as int] },
            ),
            final(self).free_tags@ == old(self).free_tags@,
            final(self).executing == old(self).executing,
    {
        let ghost pre = *self;
        self.slots[tag as usize].set_data_len(len);
        proof {
            lemma_executing_update(pre.slots@, tag as int, self.slots@[tag as int]);
            assert(self.slots@ =~= pre.slots@.update(tag as int, self.slots@[tag as int]));
            lemma_step_wf(pre, *self, tag as int, self.slots@[tag as int]);
        }
    }

    pub fn set_recv_offset(&mut self, tag: u16, off: u32)
        requires
            old(self).wf(),
            tag < old(self).nslots,
        ensures
            final(self).wf(),
            final(self).slot_now(
                old(self),
                tag,
                Slot { recv_offset: off, ..old(self).slots@[tag as int] },
            ),
            final(self).free_tags@ == old(self).free_tags@,
            final(self).executing == old(self).executing,
    {
        let ghost pre = *self;
        self.slots[tag as usize].set_recv_offset(off);
        proof {
            lemma_executing_update(pre.slots@, tag as int, self.slots@[tag as int]);
            assert(self.slots@ =~= pre.slots@.update(tag as int, self.slots@[tag as int]));
            lemma_step_wf(pre, *self, tag as int, self.slots@[tag as int]);
        }
    }

    /// Park slot `tag`'s command while its payload is still arriving.
    pub fn stash_cmd(&mut self, tag: u16, cmd: C)
        requires
            old(self).wf(),
            tag < old(self).nslots,
            old(self).slots@[tag as int].state is Receiving,
        ensures
            final(self).wf(),
            final(self).slot_now(old(self), tag, Slot { cmd, ..old(self).slots@[tag as int] }),
            final(self).free_tags@ == old(self).free_tags@,
            final(self).executing == old(self).executing,
    {
        let ghost pre = *self;
        self.slots[tag as usize].stash_cmd(cmd);
        proof {
            lemma_executing_update(pre.slots@, tag as int, self.slots@[tag as int]);
            assert(self.slots@ =~= pre.slots@.update(tag as int, self.slots@[tag as int]));
            lemma_step_wf(pre, *self, tag as int, self.slots@[tag as int]);
        }
    }

    /// Deliver a fully received command to the slot task.
    pub fn submit(&mut self, tag: u16, cmd: C)
        requires
            old(self).wf(),
            tag < old(self).nslots,
            old(self).slots@[tag as int].state is Receiving,
        ensures
            final(self).wf(),
            final(self).slot_now(
                old(self),
                tag,
                Slot { cmd, state: SlotState::Ready, ..old(self).slots@[tag as int] },
            ),
            final(self).free_tags@ == old(self).free_tags@,
            final(self).executing == old(self).executing,
    {
        let ghost pre = *self;
        let i: usize = tag as usize;
        self.slots[i].cmd = cmd;
        self.slots[i].state = SlotState::Ready;
        proof {
            lemma_executing_update(pre.slots@, tag as int, self.slots@[tag as int]);
            assert(self.slots@ =~= pre.slots@.update(tag as int, self.slots@[tag as int]));
            lemma_step_wf(pre, *self, tag as int, self.slots@[tag as int]);
        }
    }

    /// The slot task's next command for `tag`: present exactly when the slot
    /// is `Ready`, which it then leaves for `Executing`.
    pub fn poll_command(&mut self, tag: u16) -> (r: Option<C>)
        requires
            old(self).wf(),
            tag < old(self).nslots,
        ensures
            final(self).wf(),
            if old(self).slots@[tag as int].state is Ready {
                &&& r == Some(old(self).slots@[tag as int].cmd)
                &&& final(self).slot_now(
                    old(self),
                    tag,
                    Slot { state: SlotState::Executing, ..old(self).slots@[tag as int] },
                )
                &&& final(self).free_tags@ == old(self).free_tags@
                &&& final(self).executing == old(self).executing + 1
            } else {
                r is None && *final(self) == *old(self)
            },
    {
        let ghost pre = *self;
        let i: usize = tag as usize;
        match self.slots[i].state {
            SlotState::Ready => {
                let ghost now = Slot { state: SlotState::Executing, ..pre.slots@[tag as int] };
                proof {
                    lemma_executing_update(pre.slots@, tag as int, now);
                }
                self.slots[i].state = SlotState::Executing;
                self.executing = self.executing + 1;
                proof {
                    assert(self.slots@ =~= pre.slots@.update(tag as int, now));
                    lemma_step_wf(pre, *self, tag as int, now);
                }
                Some(self.slots[i].cmd)
            },
            _ => None,
        }
    }

    /// Step an `Executing` slot to `Responding`, once dispatch has a result.
    pub fn begin_respond(&mut self, tag: u16)
        requires
            old(self).wf(),
            tag < old(self).nslots,
            old(self).slots@[tag as int].state is Executing,
        ensures
            final(self).wf(),
            final(self).slot_now(
                old(self),
                tag,
                Slot { state: SlotState::Responding, ..old(self).slots@[tag as int] },
            ),
            final(self).free_tags@ == old(self).free_tags@,
            final(self).executing == old(self).executing - 1,
    {
        let ghost pre = *self;
        let ghost now = Slot { state: SlotState::Responding, ..pre.slots@[tag as int] };
        proof {
            lemma_executing_update(pre.slots@, tag as int, now);
        }
        self.slots[tag as usize].state = SlotState::Responding;
        self.executing = self.executing - 1;
        proof {
            assert(self.slots@ =~= pre.slots@.update(tag as int, now));
            lemma_step_wf(pre, *self, tag as int, now);
        }
    }

    /// Step a `Receiving` slot straight to `Responding`: fail a command
    /// without dispatching it. The slot task never saw it, so `executing` is
    /// untouched.
    pub fn respond_receiving(&mut self, tag: u16)
        requires
            old(self).wf(),
            tag < old(self).nslots,
            old(self).slots@[tag as int].state is Receiving,
        ensures
            final(self).wf(),
            final(self).slot_now(
                old(self),
                tag,
                Slot { state: SlotState::Responding, ..old(self).slots@[tag as int] },
            ),
            final(self).free_tags@ == old(self).free_tags@,
            final(self).executing == old(self).executing,
    {
        let ghost pre = *self;
        let ghost now = Slot { state: SlotState::Responding, ..pre.slots@[tag as int] };
        proof {
            lemma_executing_update(pre.slots@, tag as int, now);
        }
        self.slots[tag as usize].state = SlotState::Responding;
        proof {
            assert(self.slots@ =~= pre.slots@.update(tag as int, now));
            lemma_step_wf(pre, *self, tag as int, now);
        }
    }

    /// Return a tag to the freelist once its response is fully sent: its data
    /// buffer ends its life first.
    pub fn release_tag(&mut self, tag: u16)
        requires
            old(self).wf(),
            tag < old(self).nslots,
            old(self).slots@[tag as int].state is Responding,
        ensures
            final(self).wf(),
            tag_released(*old(self), *final(self), tag),
    {
        let ghost pre = *self;
        self.release_data(tag);
        let ghost mid = *self;
        let ghost now = Slot { state: SlotState::Free, ..mid.slots@[tag as int] };
        proof {
            lemma_executing_update(mid.slots@, tag as int, now);
        }
        self.slots[tag as usize].state = SlotState::Free;
        self.free_tags.push(tag);
        proof {
            let post = *self;
            assert(post.slots@ =~= mid.slots@.update(tag as int, now));
            assert(post.slots@ =~= pre.slots@.update(tag as int, now));
            assert forall|t: int| 0 <= t < post.slots@.len() implies (
            #[trigger] post.slots@[t]).data.wf(post.pool) by {
                assert(mid.slots@[t].data == post.slots@[t].data);
                assert(mid.slots@[t].data.wf(mid.pool));
            }
            assert forall|a: int, b: int|
                0 <= a < post.slots@.len() && 0 <= b < post.slots@.len() && a != b && (
                #[trigger] post.slots@[a]).data.owner is Pool && (
                #[trigger] post.slots@[b]).data.owner is Pool implies crate::pool::disjoint(
                post.slots@[a].data.segs@,
                post.slots@[b].data.segs@,
            ) by {
                assert(mid.slots@[a].data == post.slots@[a].data);
                assert(mid.slots@[b].data == post.slots@[b].data);
            }
            assert(!mid.free_tags@.contains(tag)) by {
                if mid.free_tags@.contains(tag) {
                    let k = choose|k: int| 0 <= k < mid.free_tags@.len() && mid.free_tags@[k] == tag;
                    assert(mid.slots@[mid.free_tags@[k] as int].state is Free);
                }
            }
            assert forall|k: int| 0 <= k < post.free_tags@.len() implies (
            #[trigger] post.free_tags@[k]) < post.nslots
                && post.slots@[post.free_tags@[k] as int].state is Free by {
                if k < mid.free_tags@.len() {
                    assert(mid.free_tags@[k] == post.free_tags@[k]);
                }
            }
            assert forall|t: u16|
                #![trigger post.free_tags@.contains(t)]
                t < post.nslots && post.slots@[t as int].state is Free implies post.free_tags@.contains(
            t) by {
                if t == tag {
                    assert(post.free_tags@[post.free_tags@.len() - 1] == tag);
                } else {
                    assert(mid.slots@[t as int].state is Free);
                    assert(mid.free_tags@.contains(t));
                    let k = choose|k: int| 0 <= k < mid.free_tags@.len() && mid.free_tags@[k] == t;
                    assert(post.free_tags@[k] == t);
                }
            }
        }
    }

    /// Slots currently executing a command.
    pub fn executing(&self) -> (n: u16)
        ensures
            n == self.executing,
    {
        self.executing
    }

    /// All slots free.
    pub fn idle(&self) -> (b: bool)
        requires
            self.wf(),
        ensures
            b == (forall|t: int| 0 <= t < self.nslots ==> (#[trigger] self.slots@[t]).state is Free),
            b == (self.free_tags@.len() == self.nslots),
    {
        proof {
            lemma_idle(*self);
        }
        self.free_tags.len() == self.nslots as usize
    }

    /// Number of free tags.
    pub fn free_tags(&self) -> (n: usize)
        ensures
            n == self.free_tags@.len(),
    {
        self.free_tags.len()
    }

    /// The ring sub-buffers whose borrow has ended since the last call, oldest
    /// first.
    pub fn take_ring_done(&mut self) -> (bids: Vec<u16>)
        requires
            old(self).wf(),
        ensures
            final(self).wf(),
            bids@ == old(self).ring_done@,
            final(self).ring_done@.len() == 0,
            *final(self) == (SlotArray { ring_done: final(self).ring_done, ..*old(self) }),
    {
        let mut out: Vec<u16> = Vec::new();
        std::mem::swap(&mut self.ring_done, &mut out);
        out
    }

    /// Copy `src` into slot `tag`'s buffer at logical offset `off`. No other
    /// slot's bytes change.
    pub fn write_slot(&mut self, tag: u16, off: usize, src: &[u8])
        requires
            old(self).wf(),
            tag < old(self).nslots,
            !(old(self).slots@[tag as int].data.owner is Ring),
            off + src@.len() <= old(self).slots@[tag as int].data.len,
        ensures
            final(self).wf(),
            slot_written(*old(self), *final(self), tag, off as int, src@),
    {
        let ghost pre = *self;
        let i: usize = tag as usize;
        assert(pre.slots@[tag as int].data.wf(pre.pool));
        let mut no_ring: Vec<u8> = Vec::new();
        self.slots[i].data.write_at(&mut self.pool, &mut no_ring, off, src);
        proof {
            let post = *self;
            let now = post.slots@[tag as int];
            assert(post.slots@ =~= pre.slots@.update(tag as int, now));
            lemma_executing_update(pre.slots@, tag as int, now);
            assert forall|t: int| 0 <= t < post.slots@.len() implies (
            #[trigger] post.slots@[t]).data.wf(post.pool) by {
                assert(pre.slots@[t].data.wf(pre.pool));
            }
            assert forall|a: int, b: int|
                0 <= a < post.slots@.len() && 0 <= b < post.slots@.len() && a != b && (
                #[trigger] post.slots@[a]).data.owner is Pool && (
                #[trigger] post.slots@[b]).data.owner is Pool implies crate::pool::disjoint(
                post.slots@[a].data.segs@,
                post.slots@[b].data.segs@,
            ) by {
                assert(pre.slots@[a].data.owner is Pool && pre.slots@[b].data.owner is Pool);
            }
            assert forall|k: int| 0 <= k < post.free_tags@.len() implies (
            #[trigger] post.free_tags@[k]) < post.nslots
                && post.slots@[post.free_tags@[k] as int].state is Free by {
                assert(pre.free_tags@[k] == post.free_tags@[k]);
            }
            assert forall|t: u16|
                #![trigger post.free_tags@.contains(t)]
                t < post.nslots && post.slots@[t as int].state is Free implies post.free_tags@.contains(
            t) by {
                assert(pre.slots@[t as int].state is Free);
                assert(pre.free_tags@.contains(t));
            }
            assert forall|t: int| 0 <= t < pre.nslots && t != tag implies (
            #[trigger] pre.slots@[t]).data.bytes(post.pool) == pre.slots@[t].data.bytes(
                pre.pool,
            ) by {
                let d = pre.slots@[t].data;
                let w = pre.slots@[tag as int].data;
                assert(d.wf(pre.pool) && w.wf(pre.pool));
                if d.owner is Pool {
                    if w.owner is Pool {
                        crate::pool::write_keeps_other_lease(
                            pre.pool,
                            pre.pool.mem@,
                            post.pool.mem@,
                            w.segs@,
                            d.segs@,
                        );
                    } else {
                        assert(post.pool.mem@ =~= pre.pool.mem@);
                    }
                }
            }
        }
    }
}

/// Slot `tag` now holds the `taken` runs (`pages` pages in all) the free list
/// gave up for it, and the buffer it held before has ended its life.
pub open spec fn leased_into<C: Copy>(
    pre: SlotArray<C>,
    post: SlotArray<C>,
    tag: u16,
    pages: int,
    taken: Seq<crate::pool::Run>,
    rest: Seq<crate::pool::Run>,
) -> bool {
    let d = post.slots@[tag as int].data;
    &&& d.owner is Pool
    &&& d.segs@ == crate::pool::lease_segs(taken)
    &&& d.len == pages * crate::pool::PAGE
    &&& exists|mid: BufPool|
        {
            &&& mid.same_but_free(&pre.pool)
            &&& mid.free@ == rest
            &&& mid.free_pages == pre.pool.free_pages - pages
            &&& #[trigger] data_replaced(pre, post, tag, d, mid)
        }
}

proof fn lemma_idle<C: Copy>(a: SlotArray<C>)
    requires
        a.wf(),
    ensures
        (a.free_tags@.len() == a.nslots) == (forall|t: int|
            0 <= t < a.nslots ==> (#[trigger] a.slots@[t]).state is Free),
        a.free_tags@.len() <= a.nslots,
{
    let n = a.nslots as int;
    let free = a.free_tags@.map_values(|t: u16| t as int);
    let all = vstd::set_lib::set_int_range(0, n);
    vstd::set_lib::lemma_int_range(0, n);
    assert(free.no_duplicates()) by {
        assert forall|i: int, j: int| 0 <= i < free.len() && 0 <= j < free.len() && i != j implies free[i]
            != free[j] by {
            assert(a.free_tags@[i] != a.free_tags@[j]);
        }
    }
    free.unique_seq_to_set();
    let fs = free.to_set();
    assert forall|x: int| fs.contains(x) implies all.contains(x) by {
        let i = choose|i: int| 0 <= i < free.len() && free[i] == x;
        assert(a.free_tags@[i] < a.nslots);
    }
    vstd::set_lib::lemma_len_subset(fs, all);
    if forall|t: int| 0 <= t < a.nslots ==> (#[trigger] a.slots@[t]).state is Free {
        assert forall|x: int| all.contains(x) implies fs.contains(x) by {
            assert(a.slots@[x].state is Free);
            assert(a.free_tags@.contains(x as u16));
            let i = choose|i: int| 0 <= i < a.free_tags@.len() && a.free_tags@[i] == x as u16;
            assert(free[i] == x);
        }
        assert(fs =~= all);
    }
    if a.free_tags@.len() == a.nslots {
        assert forall|t: int| 0 <= t < a.nslots implies (#[trigger] a.slots@[t]).state is Free by {
            if !(a.slots@[t].state is Free) {
                assert(!fs.contains(t)) by {
                    if fs.contains(t) {
                        let i = choose|i: int| 0 <= i < free.len() && free[i] == t;
                        assert(a.slots@[a.free_tags@[i] as int].state is Free);
                    }
                }
                let less = all.remove(t);
                assert(fs.subset_of(less));
                vstd::set_lib::lemma_len_subset(fs, less);
            }
        }
    }
}

/// What a send loop finds when it asks for work.
pub enum Next<W> {
    /// The oldest queued item.
    Work(W),
    /// Nothing queued and the list is closed.
    Closed,
    /// Nothing queued yet.
    Pending,
}

/// The ordered send-work queue a transport's send loop drains.
pub struct SendList<W> {
    pub work: std::collections::VecDeque<W>,
    /// Set at teardown: no more work is expected once the list is drained.
    pub closed: bool,
}

impl<W> SendList<W> {
    /// An empty list, with room for the items of about `nslots` slots
    /// (responses plus solicitations).
    pub fn new(nslots: u16) -> (l: SendList<W>)
        ensures
            l.work@.len() == 0,
            !l.closed,
    {
        SendList {
            work: std::collections::VecDeque::with_capacity(nslots as usize * 2),
            closed: false,
        }
    }

    /// Queue work.
    pub fn push(&mut self, work: W)
        ensures
            final(self).work@ == old(self).work@.push(work),
            final(self).closed == old(self).closed,
    {
        self.work.push_back(work);
    }

    /// The oldest queued item, if any.
    pub fn try_next(&mut self) -> (r: Option<W>)
        ensures
            final(self).closed == old(self).closed,
            if old(self).work@.len() == 0 {
                r is None && final(self).work@ == old(self).work@
            } else {
                r == Some(old(self).work@[0]) && final(self).work@ == old(self).work@.subrange(
                    1,
                    old(self).work@.len() as int,
                )
            },
    {
        self.work.pop_front()
    }

    /// Queued work first, then whether the list has ended.
    pub fn poll_next(&mut self) -> (r: Next<W>)
        ensures
            final(self).closed == old(self).closed,
            if old(self).work@.len() > 0 {
                r == Next::Work(old(self).work@[0]) && final(self).work@
                    == old(self).work@.subrange(1, old(self).work@.len() as int)
            } else {
                &&& final(self).work@ == old(self).work@
                &&& r == (if old(self).closed {
                    Next::<W>::Closed
                } else {
                    Next::<W>::Pending
                })
            },
    {
        match self.work.pop_front() {
            Some(work) => Next::Work(work),
            None => if self.closed {
                Next::Closed
            } else {
                Next::Pending
            },
        }
    }

    /// Orderly end: queued work is still delivered first.
    pub fn close(&mut self)
        ensures
            final(self).closed,
            final(self).work@ == old(self).work@,
    {
        self.closed = true;
    }
}

/// A released tag is the next one claimed, and no other tag changes hands in
/// between.
pub proof fn released_tag_is_next<C: Copy>(
    a: SlotArray<C>,
    b: SlotArray<C>,
    c: SlotArray<C>,
    tag: u16,
    next: u16,
)
    requires
        tag_released(a, b, tag),
        tag_claimed(b, c, next),
    ensures
        next == tag,
        c.free_tags@ == a.free_tags@,
{
    assert(b.free_tags@.drop_last() =~= a.free_tags@);
}

/// Freeing a tag and claiming it again starts from an empty slot: no byte and
/// no length of the command before is left.
pub proof fn claimed_slot_is_clean<C: Copy>(
    a: SlotArray<C>,
    b: SlotArray<C>,
    c: SlotArray<C>,
    tag: u16,
)
    requires
        a.wf(),
        tag < a.nslots,
        tag_released(a, b, tag),
        tag_claimed(b, c, tag),
    ensures
        c.slots@[tag as int].data.owner is Empty,
        c.slots@[tag as int].data_len == 0,
        c.slots@[tag as int].recv_offset == 0,
        c.slots@[tag as int].state is Receiving,
{
}

} // verus!
