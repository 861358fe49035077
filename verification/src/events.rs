//! Double-buffered event channels.
//!
//! A channel keeps a current buffer, which pushes append to, and a
//! previous buffer, left over from the last flip. Readers see both,
//! oldest first. The flip runs once per tick, in the earliest phase of
//! the schedule order: the current buffer becomes the previous one, and
//! what was previous is dropped. So an event is visible from its push
//! until the second flip after it, which bounds memory while giving
//! at-least-one-tick visibility.

use crate::value::Value;
use vstd::prelude::*;

verus! {

/// One pushed event: its tick-scoped id and its payload.
#[derive(Clone, Debug, PartialEq, Eq)]
pub struct EventRec {
    /// The id this push got; later pushes get larger ids.
    pub id: u64,
    /// The pushed value.
    pub payload: Value,
}

/// A double-buffered queue of events of one registered kind.
#[derive(Clone, Debug, PartialEq, Eq)]
pub struct Channel {
    prev: Vec<EventRec>,
    cur: Vec<EventRec>,
    next_id: u64,
}

/// How a push changes a channel: the event is appended to the current
/// buffer under the next id, and nothing else moves.
pub open spec fn push_rel(c: Channel, d: Channel, p: Value) -> bool {
    &&& c.next_id() < u64::MAX
    &&& d.prev_seq() == c.prev_seq()
    &&& d.cur_seq() == c.cur_seq().push(EventRec { id: c.next_id(), payload: p })
    &&& d.next_id() == c.next_id() + 1
}

/// A channel reached from another by any number of pushes: the previous
/// buffer is untouched and the current buffer has only grown.
pub open spec fn pushes_rel(c: Channel, d: Channel) -> bool {
    &&& d.prev_seq() == c.prev_seq()
    &&& c.cur_seq().is_prefix_of(d.cur_seq())
}

/// How a flip changes a channel: the current buffer becomes the
/// previous one, a fresh buffer becomes current, and what was previous
/// is dropped.
pub open spec fn update_rel(c: Channel, d: Channel) -> bool {
    &&& d.prev_seq() == c.cur_seq()
    &&& d.cur_seq() == Seq::<EventRec>::empty()
    &&& d.next_id() == c.next_id()
}

/// Where a channel stands after the given number of flips with nothing
/// pushed in between: untouched, flipped once, or — after two or more
/// flips — emptied, its id counter kept.
pub open spec fn flipped_times(c: Channel, d: Channel, n: nat) -> bool {
    if n == 0 {
        d == c
    } else if n == 1 {
        update_rel(c, d)
    } else {
        &&& d.prev_seq() == Seq::<EventRec>::empty()
        &&& d.cur_seq() == Seq::<EventRec>::empty()
        &&& d.next_id() == c.next_id()
    }
}

impl Channel {
    /// What was pushed since the last flip, oldest first.
    pub closed spec fn cur_seq(self) -> Seq<EventRec> {
        self.cur@
    }

    /// What the last flip carried over, oldest first.
    pub closed spec fn prev_seq(self) -> Seq<EventRec> {
        self.prev@
    }

    /// The id the next push will get.
    pub closed spec fn next_id(self) -> u64 {
        self.next_id
    }

    /// What a reader sees: the carried-over buffer, then the current
    /// one, oldest first.
    pub open spec fn visible_seq(self) -> Seq<EventRec> {
        self.prev_seq() + self.cur_seq()
    }

    /// Ids grow along the visible sequence and stay under the next id.
    pub open spec fn wf(self) -> bool {
        &&& forall|i: int, j: int|
            0 <= i < j < self.visible_seq().len() ==> (#[trigger] self.visible_seq()[i]).id < (
            #[trigger] self.visible_seq()[j]).id
        &&& forall|i: int|
            0 <= i < self.visible_seq().len() ==> (#[trigger] self.visible_seq()[i]).id
                < self.next_id()
    }

    /// An empty channel.
    pub fn new() -> (c: Channel)
        ensures
            c.wf(),
            c.prev_seq() =~= Seq::<EventRec>::empty(),
            c.cur_seq() =~= Seq::<EventRec>::empty(),
            c.next_id() == 0,
    {
        Channel { prev: Vec::new(), cur: Vec::new(), next_id: 0 }
    }

    /// Appends the value to the current buffer under the next id.
    pub fn push(&mut self, p: Value)
        requires
            old(self).wf(),
            old(self).next_id() < u64::MAX,
        ensures
            final(self).wf(),
            push_rel(*old(self), *final(self), p),
    {
        let id = self.next_id;
        self.cur.push(EventRec { id, payload: p });
        self.next_id = self.next_id + 1;
        proof {
            assert(self.visible_seq() =~= old(self).visible_seq().push(
                EventRec { id, payload: p },
            ));
        }
    }

    /// The per-tick flip: rotates the buffers and drops what had
    /// already survived one flip.
    pub fn update(&mut self)
        ensures
            update_rel(*old(self), *final(self)),
            old(self).wf() ==> final(self).wf(),
    {
        let mut fresh: Vec<EventRec> = Vec::new();
        core::mem::swap(&mut self.prev, &mut self.cur);
        core::mem::swap(&mut self.cur, &mut fresh);
        proof {
            if old(self).wf() {
                assert forall|i: int, j: int|
                    0 <= i < j < self.visible_seq().len() implies (
                #[trigger] self.visible_seq()[i]).id < (#[trigger] self.visible_seq()[j]).id by {
                    assert(self.visible_seq()[i] == old(self).visible_seq()[
                        old(self).prev_seq().len() + i]);
                    assert(self.visible_seq()[j] == old(self).visible_seq()[
                        old(self).prev_seq().len() + j]);
                }
                assert forall|i: int| 0 <= i < self.visible_seq().len() implies (
                #[trigger] self.visible_seq()[i]).id < self.next_id() by {
                    assert(self.visible_seq()[i] == old(self).visible_seq()[
                        old(self).prev_seq().len() + i]);
                }
            }
        }
    }

    /// The id the next push will get; pushes stop at the id space's
    /// end, which a caller rules out before pushing.
    pub fn pending_id(&self) -> (r: u64)
        ensures
            r == self.next_id(),
    {
        self.next_id
    }

    /// How many events a reader sees.
    pub fn visible_len(&self) -> (n: usize)
        requires
            self.prev_seq().len() + self.cur_seq().len() <= usize::MAX,
        ensures
            n == self.visible_seq().len(),
    {
        self.prev.len() + self.cur.len()
    }

    /// A borrow of the visible event at the given position, oldest
    /// first.
    pub fn visible_at(&self, i: usize) -> (r: &EventRec)
        requires
            i < self.visible_seq().len(),
        ensures
            *r == self.visible_seq()[i as int],
    {
        if i < self.prev.len() {
            &self.prev[i]
        } else {
            &self.cur[i - self.prev.len()]
        }
    }
}

/// An event just pushed is visible, exactly once, as the newest entry;
/// it stays visible, exactly once, through any later pushes and through
/// one flip with its pushes; and the flip after that drops it. Here
/// `c` is the channel before the push, `d` after it, `e` after more
/// pushes, `f` after the first flip, `g` after yet more pushes, and `h`
/// after the second flip.
pub proof fn lemma_event_lifetime(c: Channel, d: Channel, e: Channel, f: Channel, g: Channel, h: Channel, p: Value)
    requires
        c.wf(),
        push_rel(c, d, p),
        pushes_rel(d, e),
        e.wf(),
        update_rel(e, f),
        pushes_rel(f, g),
        g.wf(),
        update_rel(g, h),
    ensures
        visible_exactly_once(d, EventRec { id: c.next_id(), payload: p }),
        visible_exactly_once(e, EventRec { id: c.next_id(), payload: p }),
        visible_exactly_once(f, EventRec { id: c.next_id(), payload: p }),
        visible_exactly_once(g, EventRec { id: c.next_id(), payload: p }),
        forall|i: int|
            0 <= i < h.visible_seq().len() ==> (#[trigger] h.visible_seq()[i]).id != c.next_id(),
{
    let r = EventRec { id: c.next_id(), payload: p };
    let nd: int = (d.prev_seq().len() + c.cur_seq().len()) as int;
    assert(d.visible_seq()[nd] == r);
    lemma_once_from_wf_aux(d, e, r, nd);
    let ne: int = (e.prev_seq().len() + c.cur_seq().len()) as int;
    assert(e.visible_seq()[ne] == r);
    lemma_once_from_wf(e, r, ne);
    let nf: int = c.cur_seq().len() as int;
    lemma_update_preserves_wf(e, f);
    assert(f.visible_seq() =~= e.cur_seq());
    assert(f.visible_seq()[nf] == e.visible_seq()[e.prev_seq().len() + nf]);
    lemma_once_from_wf(f, r, nf);
    assert(g.visible_seq()[nf] == r);
    lemma_once_from_wf(g, r, nf);
    assert forall|i: int| 0 <= i < h.visible_seq().len() implies (
    #[trigger] h.visible_seq()[i]).id != c.next_id() by {
        assert(h.visible_seq() =~= g.cur_seq());
        assert(h.visible_seq()[i] == g.visible_seq()[g.prev_seq().len() + i]);
        assert(g.visible_seq()[nf].id == c.next_id());
        assert(nf < g.prev_seq().len());
    }
}

/// The record is visible at exactly one position.
pub open spec fn visible_exactly_once(c: Channel, r: EventRec) -> bool {
    exists|i: int|
        {
            &&& 0 <= i < c.visible_seq().len()
            &&& #[trigger] c.visible_seq()[i] == r
            &&& forall|j: int|
                0 <= j < c.visible_seq().len() && (#[trigger] c.visible_seq()[j]).id == r.id ==> j
                    == i
        }
}

/// A flip keeps ids growing: what it carries over was a contiguous part
/// of what was visible before.
pub proof fn lemma_update_preserves_wf(c: Channel, d: Channel)
    requires
        c.wf(),
        update_rel(c, d),
    ensures
        d.wf(),
{
    assert forall|i: int, j: int| 0 <= i < j < d.visible_seq().len() implies (
    #[trigger] d.visible_seq()[i]).id < (#[trigger] d.visible_seq()[j]).id by {
        assert(d.visible_seq()[i] == c.visible_seq()[c.prev_seq().len() + i]);
        assert(d.visible_seq()[j] == c.visible_seq()[c.prev_seq().len() + j]);
    }
    assert forall|i: int| 0 <= i < d.visible_seq().len() implies (
    #[trigger] d.visible_seq()[i]).id < d.next_id() by {
        assert(d.visible_seq()[i] == c.visible_seq()[c.prev_seq().len() + i]);
    }
}

proof fn lemma_once_from_wf(c: Channel, r: EventRec, n: int)
    requires
        c.wf(),
        0 <= n < c.visible_seq().len(),
        c.visible_seq()[n] == r,
    ensures
        visible_exactly_once(c, r),
{
    assert forall|j: int|
        0 <= j < c.visible_seq().len() && (#[trigger] c.visible_seq()[j]).id == r.id implies j
        == n by {
        if j < n {
            assert(c.visible_seq()[j].id < c.visible_seq()[n].id);
        } else if j > n {
            assert(c.visible_seq()[n].id < c.visible_seq()[j].id);
        }
    }
}

proof fn lemma_once_from_wf_aux(d: Channel, e: Channel, r: EventRec, n: int)
    requires
        pushes_rel(d, e),
        e.wf(),
        0 <= n < d.visible_seq().len(),
        d.visible_seq()[n] == r,
    ensures
        visible_exactly_once(d, r),
{
    assert forall|j: int|
        0 <= j < d.visible_seq().len() && (#[trigger] d.visible_seq()[j]).id == r.id implies j
        == n by {
        assert(d.visible_seq()[j] == e.visible_seq()[j]);
        assert(d.visible_seq()[n] == e.visible_seq()[n]);
        if j < n {
            assert(e.visible_seq()[j].id < e.visible_seq()[n].id);
        } else if j > n {
            assert(e.visible_seq()[n].id < e.visible_seq()[j].id);
        }
    }
}

} // verus!
