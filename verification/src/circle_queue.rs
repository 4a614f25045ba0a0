//! Fixed-length, index-addressable ring of segments.
//!
//! The queue is a pure data structure: it knows nothing about time.  Its
//! view is the sequence of segment views; the length never changes after
//! construction.

use vstd::prelude::*;

use crate::segment::{Segment, SegmentView};

verus! {

pub struct CircleQueue {
    length: usize,
    data: Vec<Segment>,
}

impl View for CircleQueue {
    type V = Seq<SegmentView>;

    closed spec fn view(&self) -> Seq<SegmentView> {
        self.data.deep_view()
    }
}

/// A zeroed segment, as construction leaves every slot.
pub open spec fn seg_zero(s: SegmentView) -> bool {
    &&& s.start_time == 0
    &&& s.end_time == 0
    &&& s.cpu_events.len() == 0
    &&& s.java_futex_event.len() == 0
    &&& s.transaction_id_event.len() == 0
    &&& s.is_send == 0
    &&& s.index_timestamp.len() == 0
}

impl CircleQueue {
    pub closed spec fn spec_length(&self) -> usize {
        self.length
    }

    /// The stored length always matches the data; every method keeps it so.
    pub closed spec fn wf(&self) -> bool {
        self.data@.len() == self.length
    }

    pub fn new(length: usize) -> (r: Self)
        ensures
            r.wf(),
            r.spec_length() == length,
            r@.len() == length,
            forall|i: int| 0 <= i < length ==> seg_zero(#[trigger] r@[i]),
    {
        let mut data: Vec<Segment> = Vec::new();
        let mut i: usize = 0;
        while i < length
            invariant
                i <= length,
                data@.len() == i,
                forall|m: int| 0 <= m < i ==> seg_zero((#[trigger] data@[m])@),
            decreases length - i,
        {
            data.push(Segment::new(0, 0));
            i = i + 1;
        }
        let r = CircleQueue { length, data };
        proof {
            assert forall|m: int| 0 <= m < length implies seg_zero(#[trigger] r@[m]) by {
                assert(r@[m] == r.data@[m]@);
            }
        }
        r
    }

    pub fn get_by_index(&self, index: usize) -> (r: Option<&Segment>)
        ensures
            index < self@.len() ==> (r matches Some(s) && s@ == self@[index as int]),
            index >= self@.len() ==> r is None,
    {
        if index < self.data.len() {
            let s = &self.data[index];
            assert(s@ == self@[index as int]);
            Some(s)
        } else {
            None
        }
    }

    /// In-place access to one slot; the caller is responsible for staying
    /// inside the ring, which every caller checks first.
    pub fn get_by_index_mut(&mut self, index: usize) -> (r: &mut Segment)
        requires
            index < old(self)@.len(),
        ensures
            (*r)@ == old(self)@[index as int],
            final(self)@.len() == old(self)@.len(),
            final(self)@[index as int] == (*final(r))@,
            forall|m: int|
                0 <= m < old(self)@.len() && m != index ==> final(self)@[m] == old(self)@[m],
            final(self).wf() == old(self).wf(),
            final(self).spec_length() == old(self).spec_length(),
    {
        &mut self.data[index]
    }

    pub fn update_by_index(&mut self, index: usize, val: Segment)
        requires
            old(self).wf(),
        ensures
            index < old(self).spec_length() ==> final(self)@ == old(self)@.update(
                index as int,
                val@,
            ),
            index >= old(self).spec_length() ==> final(self)@ == old(self)@,
            final(self).wf() == old(self).wf(),
            final(self).spec_length() == old(self).spec_length(),
    {
        if index < self.length {
            if index < self.data.len() {
                self.data.set(index, val);
                proof {
                    assert(self.data.deep_view() =~= old(self).data.deep_view().update(
                        index as int,
                        val@,
                    ));
                }
            }
        } else {
            proof {
                assert(self.data.deep_view() =~= old(self).data.deep_view());
            }
        }
    }

    /// Swaps the slots at `i` and `moved_index`.
    pub fn update_by_moved_index(&mut self, i: usize, moved_index: usize)
        requires
            i < old(self)@.len(),
            moved_index < old(self)@.len(),
        ensures
            final(self)@.len() == old(self)@.len(),
            final(self)@[i as int] == old(self)@[moved_index as int],
            final(self)@[moved_index as int] == old(self)@[i as int],
            forall|m: int|
                0 <= m < old(self)@.len() && m != i && m != moved_index ==> final(self)@[m]
                    == old(self)@[m],
            final(self).wf() == old(self).wf(),
            final(self).spec_length() == old(self).spec_length(),
    {
        if i == moved_index {
            return ;
        }
        let mut tmp = Segment::new(0, 0);
        self.data.set_and_swap(i, &mut tmp);
        self.data.set_and_swap(moved_index, &mut tmp);
        self.data.set_and_swap(i, &mut tmp);
        proof {
            assert forall|m: int| 0 <= m < old(self)@.len() implies final(self)@[m]
                == self.data@[m]@ by {}
        }
    }

    pub fn clear(&mut self)
        ensures
            final(self)@.len() == old(self)@.len(),
            forall|i: int| 0 <= i < final(self)@.len() ==> seg_zero(#[trigger] final(self)@[i]),
            final(self).wf() == old(self).wf(),
            final(self).spec_length() == old(self).spec_length(),
    {
        let n = self.data.len();
        let mut data: Vec<Segment> = Vec::new();
        let mut i: usize = 0;
        while i < n
            invariant
                i <= n,
                data@.len() == i,
                forall|m: int| 0 <= m < i ==> seg_zero((#[trigger] data@[m])@),
            decreases n - i,
        {
            data.push(Segment::new(0, 0));
            i = i + 1;
        }
        self.data = data;
        proof {
            assert forall|m: int| 0 <= m < self@.len() implies seg_zero(#[trigger] self@[m]) by {
                assert(self@[m] == self.data@[m]@);
            }
        }
    }

    pub fn len(&self) -> (r: usize)
        ensures
            r == self.spec_length(),
    {
        self.length
    }
}

} // verus!
