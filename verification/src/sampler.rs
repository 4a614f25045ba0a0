//! The sample-decision engine's state: the retry-safe outbound id queue,
//! the candidate record wrapper, and the sample cache itself.

use vstd::prelude::*;

use crate::traceid_model::{TraceEvent, TraceEventView};

use vstd::seq_lib::lemma_seq_skip_of_skip;

verus! {

/// Sum of the first `n` ring slots.
pub open spec fn sum_counts(c: Seq<i32>, n: int) -> int
    decreases n,
{
    if n <= 0 {
        0
    } else {
        sum_counts(c, n - 1) + c[n - 1]
    }
}

/// The outbound trace-id queue with its per-cycle count ring.
///
/// Ids await one positive acknowledgment; each failed cycle records how
/// many new ids joined since the last success.  Once the ring is full the
/// oldest cycle's ids fall off the queue's front, bounding memory under a
/// sustained outage while keeping retry order strictly FIFO.
pub struct UnSendIds {
    pub to_send_ids: Vec<String>,
    pub counts: Vec<i32>,
    pub last_num: i32,
    pub size: usize,
}

#[verifier::ext_equal]
pub ghost struct UnSendIdsView {
    pub to_send_ids: Seq<Seq<char>>,
    pub counts: Seq<i32>,
    pub last_num: i32,
    pub size: usize,
}

impl View for UnSendIds {
    type V = UnSendIdsView;

    open spec fn view(&self) -> UnSendIdsView {
        UnSendIdsView {
            to_send_ids: self.to_send_ids.deep_view(),
            counts: self.counts@,
            last_num: self.last_num,
            size: self.size,
        }
    }
}

/// The queue/ring invariant: the ring's used slots are non-negative and
/// sum to `last_num`, which never exceeds the queue's length.
pub open spec fn unsend_wf(u: UnSendIdsView) -> bool {
    &&& u.counts.len() >= 1
    &&& u.size <= u.counts.len()
    &&& forall|i: int| 0 <= i < u.size ==> #[trigger] u.counts[i] >= 0
    &&& sum_counts(u.counts, u.size as int) == u.last_num
    &&& 0 <= u.last_num <= u.to_send_ids.len()
    &&& u.to_send_ids.len() <= i32::MAX
}

/// The queue after a failed cycle reported `num` pending ids.
pub open spec fn spec_mark_unsent(u: UnSendIdsView, num: i32) -> UnSendIdsView {
    if u.size == 0 {
        UnSendIdsView {
            counts: u.counts.update(0, num),
            size: 1,
            last_num: num,
            ..u
        }
    } else if u.size < u.counts.len() {
        UnSendIdsView {
            counts: u.counts.update(u.size as int, (num - u.last_num) as i32),
            size: (u.size + 1) as usize,
            last_num: num,
            ..u
        }
    } else {
        let to_remove = u.counts[0];
        UnSendIdsView {
            to_send_ids: u.to_send_ids.skip(to_remove as int),
            counts: u.counts.skip(1).push((num - u.last_num) as i32),
            size: u.size,
            last_num: (num - to_remove) as i32,
        }
    }
}

/// The queue after `num` ids were acknowledged.
pub open spec fn spec_mark_sent(u: UnSendIdsView, num: i32) -> UnSendIdsView {
    UnSendIdsView { to_send_ids: u.to_send_ids.skip(num as int), size: 0, last_num: 0, ..u }
}

/// In a partial ring, every used slot's value bounds the total.
proof fn lemma_sum_counts_head_le(c: Seq<i32>, n: int)
    requires
        0 < n <= c.len(),
        forall|i: int| 0 <= i < n ==> #[trigger] c[i] >= 0,
    ensures
        c[0] <= sum_counts(c, n),
    decreases n,
{
    if n == 1 {
        assert(sum_counts(c, 0) == 0);
    } else {
        lemma_sum_counts_head_le(c, n - 1);
        assert(c[n - 1] >= 0);
    }
}

/// Dropping the first slot drops its summand.
proof fn lemma_sum_counts_skip1(c: Seq<i32>, n: int)
    requires
        1 <= n <= c.len(),
    ensures
        sum_counts(c.skip(1), n - 1) == sum_counts(c, n) - c[0],
    decreases n,
{
    if n == 1 {
        assert(sum_counts(c.skip(1), 0) == 0);
        assert(sum_counts(c, 0) == 0);
    } else {
        lemma_sum_counts_skip1(c, n - 1);
        assert(c.skip(1)[n - 2] == c[n - 1]);
    }
}

/// Appending past the summed prefix changes nothing.
proof fn lemma_sum_counts_push(c: Seq<i32>, x: i32, n: int)
    requires
        0 <= n <= c.len(),
    ensures
        sum_counts(c.push(x), n) == sum_counts(c, n),
    decreases n,
{
    if n > 0 {
        lemma_sum_counts_push(c, x, n - 1);
        assert(c.push(x)[n - 1] == c[n - 1]);
    }
}

/// Updating a slot at or past the summed prefix changes nothing.
proof fn lemma_sum_counts_update_past(c: Seq<i32>, k: int, x: i32, n: int)
    requires
        0 <= n <= k < c.len(),
    ensures
        sum_counts(c.update(k, x), n) == sum_counts(c, n),
    decreases n,
{
    if n > 0 {
        lemma_sum_counts_update_past(c, k, x, n - 1);
        assert(c.update(k, x)[n - 1] == c[n - 1]);
    }
}

impl UnSendIds {
    /// `size` is the retry budget: how many failed cycles the ring holds.
    pub fn new(size: usize) -> (r: Self)
        requires
            size >= 1,
        ensures
            unsend_wf(r@),
            r@.to_send_ids.len() == 0,
            r@.counts.len() == size,
            forall|i: int| 0 <= i < size ==> #[trigger] r@.counts[i] == 0,
            r@.last_num == 0,
            r@.size == 0,
    {
        let mut counts: Vec<i32> = Vec::new();
        let mut i: usize = 0;
        while i < size
            invariant
                i <= size,
                counts@.len() == i,
                forall|m: int| 0 <= m < i ==> #[trigger] counts@[m] == 0,
            decreases size - i,
        {
            counts.push(0);
            i = i + 1;
        }
        let r = UnSendIds { to_send_ids: Vec::new(), counts, last_num: 0, size: 0 };
        proof {
            assert(r@.to_send_ids =~= Seq::<Seq<char>>::empty());
        }
        r
    }

    /// Queues one id for delivery.
    pub fn cache_ids(&mut self, id: String)
        requires
            unsend_wf(old(self)@),
            old(self)@.to_send_ids.len() < i32::MAX,
        ensures
            unsend_wf(final(self)@),
            final(self)@ == (UnSendIdsView {
                to_send_ids: old(self)@.to_send_ids.push(id@),
                ..old(self)@
            }),
    {
        self.to_send_ids.push(id);
        proof {
            assert(self.to_send_ids.deep_view() =~= old(self)@.to_send_ids.push(id@));
            assert(final(self)@ =~= (UnSendIdsView {
                to_send_ids: old(self)@.to_send_ids.push(id@),
                ..old(self)@
            }));
        }
    }

    /// Records a failed delivery cycle of `num` pending ids.  Afterwards
    /// the ring's used slots again sum to exactly the queue's length, and
    /// ids can only have left from the queue's front.
    pub fn mark_unsent(&mut self, num: i32)
        requires
            unsend_wf(old(self)@),
            num == old(self)@.to_send_ids.len(),
        ensures
            unsend_wf(final(self)@),
            final(self)@ == spec_mark_unsent(old(self)@, num),
            sum_counts(final(self)@.counts, final(self)@.size as int)
                == final(self)@.to_send_ids.len(),
            exists|k: int|
                0 <= k <= old(self)@.to_send_ids.len() && final(self)@.to_send_ids
                    == #[trigger] old(self)@.to_send_ids.skip(k),
    {
        let ghost u = (*self)@;
        if self.size == 0 {
            self.counts.set(0, num);
            self.size = 1;
            self.last_num = num;
            proof {
                assert(final(self)@ =~= spec_mark_unsent(u, num));
                assert(self@.to_send_ids =~= u.to_send_ids.skip(0));
                assert(sum_counts(self@.counts, 0) == 0);
                assert(sum_counts(self@.counts, 1) == self@.counts[0]);
            }
        } else if self.size < self.counts.len() {
            let delta = num - self.last_num;
            self.counts.set(self.size, delta);
            self.size = self.size + 1;
            self.last_num = num;
            proof {
                lemma_sum_counts_update_past(u.counts, u.size as int, delta, u.size as int);
                assert(final(self)@ =~= spec_mark_unsent(u, num));
                assert(self@.to_send_ids =~= u.to_send_ids.skip(0));
                assert(sum_counts(self@.counts, self@.size as int) == sum_counts(
                    self@.counts,
                    self@.size as int - 1,
                ) + self@.counts[self@.size as int - 1]);
                assert(self@.counts[self@.size as int - 1] == delta);
                assert forall|i: int| 0 <= i < self@.size implies #[trigger] self@.counts[i]
                    >= 0 by {
                    if i < u.size {
                        assert(u.counts[i] >= 0);
                    }
                }
            }
        } else {
            let to_remove = self.counts[0];
            proof {
                lemma_sum_counts_head_le(u.counts, u.size as int);
            }
            if to_remove > 0 {
                let mut k: i32 = 0;
                while k < to_remove
                    invariant
                        0 <= k <= to_remove,
                        to_remove <= self.to_send_ids@.len() + k,
                        to_remove <= u.to_send_ids.len(),
                        self.to_send_ids.deep_view() == u.to_send_ids.skip(k as int),
                        self.counts@ == u.counts,
                        self.last_num == u.last_num,
                        self.size == u.size,
                    decreases to_remove - k,
                {
                    let ghost before = self.to_send_ids.deep_view();
                    self.to_send_ids.remove(0);
                    proof {
                        assert(self.to_send_ids.deep_view() =~= before.skip(1));
                        lemma_seq_skip_of_skip(u.to_send_ids, k as int, 1);
                        assert(before.skip(1) =~= u.to_send_ids.skip(k + 1));
                    }
                    k = k + 1;
                }
            } else {
                proof {
                    assert(self.to_send_ids.deep_view() =~= u.to_send_ids.skip(0));
                }
            }
            let delta = num - self.last_num;
            self.counts.remove(0);
            self.counts.push(delta);
            self.last_num = num - to_remove;
            proof {
                assert(self.counts@ =~= u.counts.skip(1).push(delta));
                assert(final(self)@ =~= spec_mark_unsent(u, num));
                lemma_sum_counts_skip1(u.counts, u.size as int);
                lemma_sum_counts_push(u.counts.skip(1), delta, u.size as int - 1);
                assert(sum_counts(self@.counts, self@.size as int) == sum_counts(
                    self@.counts,
                    self@.size as int - 1,
                ) + self@.counts[self@.size as int - 1]);
                assert(self@.counts[self@.size as int - 1] == delta);
            }
        }
    }

    /// Drains exactly `num` acknowledged ids from the queue's front and
    /// resets the ring.
    pub fn mark_sent(&mut self, num: i32)
        requires
            unsend_wf(old(self)@),
            0 <= num <= old(self)@.to_send_ids.len(),
        ensures
            unsend_wf(final(self)@),
            final(self)@ == spec_mark_sent(old(self)@, num),
            final(self)@.to_send_ids == old(self)@.to_send_ids.skip(num as int),
            sum_counts(final(self)@.counts, final(self)@.size as int) == 0,
    {
        let ghost u = (*self)@;
        let mut k: i32 = 0;
        while k < num
            invariant
                0 <= k <= num,
                num <= self.to_send_ids@.len() + k,
                num <= u.to_send_ids.len(),
                self.to_send_ids.deep_view() == u.to_send_ids.skip(k as int),
                self.counts@ == u.counts,
                self.last_num == u.last_num,
                self.size == u.size,
            decreases num - k,
        {
            let ghost before = self.to_send_ids.deep_view();
            self.to_send_ids.remove(0);
            proof {
                assert(self.to_send_ids.deep_view() =~= before.skip(1));
                lemma_seq_skip_of_skip(u.to_send_ids, k as int, 1);
                assert(before.skip(1) =~= u.to_send_ids.skip(k + 1));
            }
            k = k + 1;
        }
        self.size = 0;
        self.last_num = 0;
        proof {
            assert(self.to_send_ids.deep_view() =~= u.to_send_ids.skip(num as int));
            assert(final(self)@ =~= spec_mark_sent(u, num));
        }
    }

    pub fn get_to_send_count(&self) -> (r: i32)
        requires
            unsend_wf(self@),
        ensures
            r == self@.to_send_ids.len(),
    {
        self.to_send_ids.len() as i32
    }

    /// The first `size` queued ids, oldest first.
    pub fn get_to_send_ids(&self, size: usize) -> (r: Vec<String>)
        ensures
            r.deep_view() == self@.to_send_ids.take(
                if size <= self@.to_send_ids.len() {
                    size as int
                } else {
                    self@.to_send_ids.len() as int
                },
            ),
    {
        let n = if size <= self.to_send_ids.len() {
            size
        } else {
            self.to_send_ids.len()
        };
        let mut r: Vec<String> = Vec::new();
        let mut i: usize = 0;
        while i < n
            invariant
                i <= n,
                n <= self.to_send_ids@.len(),
                r.deep_view() == self@.to_send_ids.take(i as int),
            decreases n - i,
        {
            let ghost before = r.deep_view();
            r.push(self.to_send_ids[i].clone());
            proof {
                assert(r.deep_view() =~= before.push(self@.to_send_ids[i as int]));
                assert(r.deep_view() =~= self@.to_send_ids.take(i + 1));
            }
            i = i + 1;
        }
        proof {
            assert(r.deep_view() =~= self@.to_send_ids.take(n as int));
        }
        r
    }
}

/// A failed cycle with room left in the ring keeps the queue whole, so
/// the next attempt sends the same batch, and only a success removes it.
pub proof fn lemma_retry_keeps_batch(u: UnSendIdsView, num: i32)
    requires
        unsend_wf(u),
        num == u.to_send_ids.len(),
        u.size < u.counts.len(),
    ensures
        spec_mark_unsent(u, num).to_send_ids == u.to_send_ids,
        spec_mark_sent(spec_mark_unsent(u, num), num).to_send_ids.len() == 0,
{
    let u1 = spec_mark_unsent(u, num);
    assert(u1.to_send_ids == u.to_send_ids);
    assert(spec_mark_sent(u1, num).to_send_ids =~= Seq::<Seq<char>>::empty());
}

/// A completed request wrapped with its re-evaluation budget.
pub struct SampleTrace {
    pub repeat_num: i32,
    pub is_sampled: bool,
    pub event: TraceEvent,
}

#[verifier::ext_equal]
pub ghost struct SampleTraceView {
    pub repeat_num: i32,
    pub is_sampled: bool,
    pub event: TraceEventView,
}

impl View for SampleTrace {
    type V = SampleTraceView;

    open spec fn view(&self) -> SampleTraceView {
        SampleTraceView {
            repeat_num: self.repeat_num,
            is_sampled: self.is_sampled,
            event: self.event@,
        }
    }
}

impl DeepView for SampleTrace {
    type V = SampleTraceView;

    open spec fn deep_view(&self) -> SampleTraceView {
        self.view()
    }
}

impl Clone for SampleTrace {
    fn clone(&self) -> (res: Self)
        ensures
            res@ == self@,
    {
        SampleTrace {
            repeat_num: self.repeat_num,
            is_sampled: self.is_sampled,
            event: self.event.clone(),
        }
    }
}

impl SampleTrace {
    pub fn new(event: TraceEvent, is_sampled: bool, repeat_num: i32) -> (r: Self)
        ensures
            r@ == (SampleTraceView { repeat_num, is_sampled, event: event@ }),
    {
        SampleTrace { event, is_sampled, repeat_num }
    }

    pub fn set_profiled(&mut self, is_profiled: bool)
        ensures
            final(self)@ == (SampleTraceView {
                event: TraceEventView { is_profiled, ..old(self)@.event },
                ..old(self)@
            }),
    {
        self.event.is_profiled = is_profiled;
    }

    pub fn set_normal(&mut self, is_normal: bool)
        ensures
            final(self)@ == (SampleTraceView {
                event: TraceEventView { is_normal, ..old(self)@.event },
                ..old(self)@
            }),
    {
        self.event.is_normal = is_normal;
    }

    pub fn set_p90(&mut self, p9x: u64)
        ensures
            final(self)@ == (SampleTraceView {
                event: TraceEventView { p90: p9x, ..old(self)@.event },
                ..old(self)@
            }),
    {
        self.event.p90 = p9x;
    }

    pub fn is_slow_flag(&self) -> (r: bool)
        ensures
            r == self@.event.is_slow,
    {
        self.event.is_slow
    }

    pub fn get_container_id(&self) -> (r: String)
        ensures
            r@ == self@.event.container_id,
    {
        self.event.container_id.clone()
    }

    pub fn get_content_key(&self) -> (r: String)
        ensures
            r@ == self@.event.content_key,
    {
        self.event.content_key.clone()
    }
}

/// A tail-base-confirmed trace id and when the confirmation arrived.
pub struct IdTime {
    pub trace_id: String,
    pub time_ns: u64,
}

#[verifier::ext_equal]
pub ghost struct IdTimeView {
    pub trace_id: Seq<char>,
    pub time_ns: u64,
}

impl View for IdTime {
    type V = IdTimeView;

    open spec fn view(&self) -> IdTimeView {
        IdTimeView { trace_id: self.trace_id@, time_ns: self.time_ns }
    }
}

impl DeepView for IdTime {
    type V = IdTimeView;

    open spec fn deep_view(&self) -> IdTimeView {
        self.view()
    }
}

/// A profiled (pid, endpoint) pair in cool-down since `time_ns`.
pub struct UrlHit {
    pub pid: u32,
    pub url: String,
    pub time_ns: u64,
}

#[verifier::ext_equal]
pub ghost struct UrlHitView {
    pub pid: u32,
    pub url: Seq<char>,
    pub time_ns: u64,
}

impl View for UrlHit {
    type V = UrlHitView;

    open spec fn view(&self) -> UrlHitView {
        UrlHitView { pid: self.pid, url: self.url@, time_ns: self.time_ns }
    }
}

impl DeepView for UrlHit {
    type V = UrlHitView;

    open spec fn deep_view(&self) -> UrlHitView {
        self.view()
    }
}

impl Clone for UrlHit {
    fn clone(&self) -> (res: Self)
        ensures
            res@ == self@,
    {
        UrlHit { pid: self.pid, url: self.url.clone(), time_ns: self.time_ns }
    }
}

/// A (container, endpoint) pair already given a baseline profile.
pub struct NormalKey {
    pub container_id: String,
    pub content_key: String,
    pub time_ns: u64,
}

#[verifier::ext_equal]
pub ghost struct NormalKeyView {
    pub container_id: Seq<char>,
    pub content_key: Seq<char>,
    pub time_ns: u64,
}

impl View for NormalKey {
    type V = NormalKeyView;

    open spec fn view(&self) -> NormalKeyView {
        NormalKeyView {
            container_id: self.container_id@,
            content_key: self.content_key@,
            time_ns: self.time_ns,
        }
    }
}

impl DeepView for NormalKey {
    type V = NormalKeyView;

    open spec fn deep_view(&self) -> NormalKeyView {
        self.view()
    }
}

pub open spec fn contains_id(s: Seq<IdTimeView>, id: Seq<char>) -> bool {
    exists|i: int| 0 <= i < s.len() && (#[trigger] s[i]).trace_id == id
}

pub open spec fn has_url_hit(s: Seq<UrlHitView>, pid: u32, url: Seq<char>) -> bool {
    exists|i: int| 0 <= i < s.len() && (#[trigger] s[i]).pid == pid && s[i].url == url
}

pub open spec fn has_normal(s: Seq<NormalKeyView>, cid: Seq<char>, key: Seq<char>) -> bool {
    exists|i: int| 0 <= i < s.len() && (#[trigger] s[i]).container_id == cid && s[i].content_key
        == key
}

/// One confirmed id folded in: the first matching entry takes the new
/// time, or a fresh entry is appended.
pub open spec fn spec_id_upsert(s: Seq<IdTimeView>, id: Seq<char>, now: u64) -> Seq<IdTimeView>
    decreases s.len(),
{
    if s.len() == 0 {
        seq![IdTimeView { trace_id: id, time_ns: now }]
    } else if s[0].trace_id == id {
        seq![IdTimeView { trace_id: id, time_ns: now }] + s.skip(1)
    } else {
        seq![s[0]] + spec_id_upsert(s.skip(1), id, now)
    }
}

/// One cool-down hit folded in, first match or append.
pub open spec fn spec_hit_upsert(s: Seq<UrlHitView>, pid: u32, url: Seq<char>, now: u64) -> Seq<
    UrlHitView,
>
    decreases s.len(),
{
    if s.len() == 0 {
        seq![UrlHitView { pid, url, time_ns: now }]
    } else if s[0].pid == pid && s[0].url == url {
        seq![UrlHitView { pid, url, time_ns: now }] + s.skip(1)
    } else {
        seq![s[0]] + spec_hit_upsert(s.skip(1), pid, url, now)
    }
}

pub proof fn lemma_id_upsert_found(s: Seq<IdTimeView>, id: Seq<char>, now: u64, i: int)
    requires
        0 <= i < s.len(),
        s[i].trace_id == id,
        forall|m: int| 0 <= m < i ==> (#[trigger] s[m]).trace_id != id,
    ensures
        spec_id_upsert(s, id, now) == s.update(i, IdTimeView { trace_id: id, time_ns: now }),
    decreases i,
{
    if i == 0 {
        assert(spec_id_upsert(s, id, now) =~= s.update(0, IdTimeView { trace_id: id, time_ns: now }));
    } else {
        assert forall|m: int| 0 <= m < i - 1 implies (#[trigger] s.skip(1)[m]).trace_id != id by {
            assert(s.skip(1)[m] == s[m + 1]);
        }
        assert(s.skip(1)[i - 1] == s[i]);
        lemma_id_upsert_found(s.skip(1), id, now, i - 1);
        assert(spec_id_upsert(s, id, now) =~= s.update(i, IdTimeView { trace_id: id, time_ns: now }));
    }
}

pub proof fn lemma_id_upsert_none(s: Seq<IdTimeView>, id: Seq<char>, now: u64)
    requires
        forall|m: int| 0 <= m < s.len() ==> (#[trigger] s[m]).trace_id != id,
    ensures
        spec_id_upsert(s, id, now) == s.push(IdTimeView { trace_id: id, time_ns: now }),
    decreases s.len(),
{
    if s.len() == 0 {
        assert(spec_id_upsert(s, id, now) =~= s.push(IdTimeView { trace_id: id, time_ns: now }));
    } else {
        assert forall|m: int| 0 <= m < s.skip(1).len() implies (#[trigger] s.skip(1)[m]).trace_id
            != id by {
            assert(s.skip(1)[m] == s[m + 1]);
        }
        lemma_id_upsert_none(s.skip(1), id, now);
        assert(spec_id_upsert(s, id, now) =~= s.push(IdTimeView { trace_id: id, time_ns: now }));
    }
}

pub proof fn lemma_hit_upsert_found(s: Seq<UrlHitView>, pid: u32, url: Seq<char>, now: u64, i: int)
    requires
        0 <= i < s.len(),
        s[i].pid == pid && s[i].url == url,
        forall|m: int| 0 <= m < i ==> !((#[trigger] s[m]).pid == pid && s[m].url == url),
    ensures
        spec_hit_upsert(s, pid, url, now) == s.update(i, UrlHitView { pid, url, time_ns: now }),
    decreases i,
{
    if i == 0 {
        assert(spec_hit_upsert(s, pid, url, now) =~= s.update(
            0,
            UrlHitView { pid, url, time_ns: now },
        ));
    } else {
        assert forall|m: int| 0 <= m < i - 1 implies !((#[trigger] s.skip(1)[m]).pid == pid
            && s.skip(1)[m].url == url) by {
            assert(s.skip(1)[m] == s[m + 1]);
        }
        assert(s.skip(1)[i - 1] == s[i]);
        lemma_hit_upsert_found(s.skip(1), pid, url, now, i - 1);
        assert(spec_hit_upsert(s, pid, url, now) =~= s.update(
            i,
            UrlHitView { pid, url, time_ns: now },
        ));
    }
}

pub proof fn lemma_hit_upsert_none(s: Seq<UrlHitView>, pid: u32, url: Seq<char>, now: u64)
    requires
        forall|m: int| 0 <= m < s.len() ==> !((#[trigger] s[m]).pid == pid && s[m].url == url),
    ensures
        spec_hit_upsert(s, pid, url, now) == s.push(UrlHitView { pid, url, time_ns: now }),
    decreases s.len(),
{
    if s.len() == 0 {
        assert(spec_hit_upsert(s, pid, url, now) =~= s.push(UrlHitView { pid, url, time_ns: now }));
    } else {
        assert forall|m: int| 0 <= m < s.skip(1).len() implies !((#[trigger] s.skip(1)[m]).pid
            == pid && s.skip(1)[m].url == url) by {
            assert(s.skip(1)[m] == s[m + 1]);
        }
        lemma_hit_upsert_none(s.skip(1), pid, url, now);
        assert(spec_hit_upsert(s, pid, url, now) =~= s.push(UrlHitView { pid, url, time_ns: now }));
    }
}

/// The duration-based slowness rule: a configured fixed threshold is
/// authoritative; otherwise the stored percentile, inflated by the
/// configured percentage, decides; with no percentile known the
/// correlator's own slow flag stands.
pub open spec fn spec_is_slow(threshold: u64, percent: u64, p9x: u64, ev: TraceEventView) -> bool {
    if threshold > 0 {
        ev.duration >= threshold
    } else if p9x == 0 {
        ev.is_slow
    } else {
        ev.duration * 100 >= p9x * percent
    }
}

/// The sample-decision engine's whole state.
pub struct SampleCache {
    pub trace_cache: Vec<SampleTrace>,
    pub un_send_ids: UnSendIds,
    pub sampled_trace_ids: Vec<IdTime>,
    pub url_hits: Vec<UrlHit>,
    /// Nanoseconds a confirmed trace id is held.
    pub trace_hold_time: u64,
    /// Nanoseconds a profiled (pid, endpoint) stays in cool-down.
    pub url_hit_duration: u64,
    /// Nanoseconds; a fixed slow threshold, zero meaning "use percentiles".
    pub trace_threshold: u64,
    pub store_profile_tailbase: bool,
    /// Percentile inflation in percent (110 stands for a 1.1 multiplier).
    pub p9x_increase_percent: u64,
    pub query_time: i64,
    pub p9x_cache: crate::p9x_cache::PrometheusP9xCache,
    pub normal_sent_cache: Vec<NormalKey>,
}

impl SampleCache {
    pub open spec fn ids(&self) -> Seq<IdTimeView> {
        self.sampled_trace_ids.deep_view()
    }

    pub open spec fn hits(&self) -> Seq<UrlHitView> {
        self.url_hits.deep_view()
    }

    pub open spec fn cached(&self) -> Seq<SampleTraceView> {
        self.trace_cache.deep_view()
    }

    pub open spec fn wf(&self) -> bool {
        &&& unsend_wf(self.un_send_ids@)
        &&& self.p9x_increase_percent <= 1_000_000
        &&& forall|i: int|
            0 <= i < self.trace_cache@.len() ==> (#[trigger] self.trace_cache@[i]).event.duration
                <= self.trace_cache@[i].event.end_time
    }

    /// The fields every method leaves alone.
    pub open spec fn same_config(&self, other: &Self) -> bool {
        &&& self.trace_hold_time == other.trace_hold_time
        &&& self.url_hit_duration == other.url_hit_duration
        &&& self.trace_threshold == other.trace_threshold
        &&& self.store_profile_tailbase == other.store_profile_tailbase
        &&& self.p9x_increase_percent == other.p9x_increase_percent
    }

    /// `host_name` identifies this host toward the verdict service.
    pub fn new(cfg: &crate::config::SampleProcessorCfg, host_name: String) -> (r: Self)
        requires
            cfg.sample_trace_repeat_num matches Some(n) && n >= 1,
            cfg.sample_trace_wait_time matches Some(t) && t <= 18_000_000_000,
            cfg.sample_url_hit_duration matches Some(d) && d <= 18_000_000_000,
            cfg.sample_trace_threshold matches Some(t) && t <= 18_000_000_000_000,
            cfg.query_p9x_increase_percent matches Some(p) && p <= 1_000_000,
        ensures
            r.wf(),
            r.cached().len() == 0,
            r.ids().len() == 0,
            r.hits().len() == 0,
            r.normal_sent_cache.deep_view().len() == 0,
            r.un_send_ids@.to_send_ids.len() == 0,
            r.query_time == 0,
            cfg.sample_trace_wait_time matches Some(t) ==> r.trace_hold_time == t * 1000000000,
            cfg.sample_url_hit_duration matches Some(d) ==> r.url_hit_duration == d * 1000000000,
            cfg.sample_trace_threshold matches Some(t) ==> r.trace_threshold == t * 1000000,
            cfg.query_p9x_increase_percent matches Some(p) ==> r.p9x_increase_percent == p,
            r.store_profile_tailbase == cfg.store_profile_tailbase,
            cfg.sample_trace_repeat_num matches Some(n) ==> r.un_send_ids@.counts.len() == n,
    {
        let repeat = match cfg.sample_trace_repeat_num {
            Some(n) => n,
            None => 1,
        };
        let wait = match cfg.sample_trace_wait_time {
            Some(t) => t,
            None => 30,
        };
        let hit = match cfg.sample_url_hit_duration {
            Some(d) => d,
            None => 5,
        };
        let threshold = match cfg.sample_trace_threshold {
            Some(t) => t,
            None => 0,
        };
        let percent = match cfg.query_p9x_increase_percent {
            Some(p) => p,
            None => 110,
        };
        let r = SampleCache {
            trace_cache: Vec::new(),
            un_send_ids: UnSendIds::new(repeat as usize),
            sampled_trace_ids: Vec::new(),
            url_hits: Vec::new(),
            trace_hold_time: wait * 1000000000,
            url_hit_duration: hit * 1000000000,
            trace_threshold: threshold * 1000000,
            store_profile_tailbase: cfg.store_profile_tailbase,
            p9x_increase_percent: percent,
            query_time: 0,
            p9x_cache: crate::p9x_cache::PrometheusP9xCache::new(host_name),
            normal_sent_cache: Vec::new(),
        };
        proof {
            assert(r.cached() =~= Seq::<SampleTraceView>::empty());
            assert(r.ids() =~= Seq::<IdTimeView>::empty());
            assert(r.hits() =~= Seq::<UrlHitView>::empty());
            assert(r.normal_sent_cache.deep_view() =~= Seq::<NormalKeyView>::empty());
        }
        r
    }

    /// Whether the verdict service already confirmed this trace id.
    pub fn is_tail_base_sampled(&self, sample_trace: &SampleTrace) -> (r: bool)
        ensures
            r == contains_id(self.ids(), sample_trace@.event.trace_id),
    {
        let ghost s = self.ids();
        let mut i: usize = 0;
        while i < self.sampled_trace_ids.len()
            invariant
                i <= s.len(),
                s == self.ids(),
                s.len() == self.sampled_trace_ids@.len(),
                forall|m: int|
                    0 <= m < i ==> (#[trigger] s[m]).trace_id != sample_trace@.event.trace_id,
            decreases s.len() - i,
        {
            let entry = &self.sampled_trace_ids[i];
            proof {
                assert(entry@ == s[i as int]);
            }
            if entry.trace_id.eq(&sample_trace.event.trace_id) {
                return true;
            }
            i = i + 1;
        }
        false
    }

    /// Looks the percentile up, stamps it into the record, and applies
    /// the slowness rule.
    pub fn is_slow(&self, sample_trace: &mut SampleTrace) -> (r: bool)
        requires
            self.wf(),
        ensures
            ({
                let p9x = crate::p9x_cache::p9x_of(
                    self.p9x_cache.table(),
                    old(sample_trace)@.event.container_id,
                    old(sample_trace)@.event.content_key,
                );
                r == spec_is_slow(
                    self.trace_threshold,
                    self.p9x_increase_percent,
                    p9x,
                    old(sample_trace)@.event,
                ) && final(sample_trace)@ == (SampleTraceView {
                    event: TraceEventView { p90: p9x, ..old(sample_trace)@.event },
                    ..old(sample_trace)@
                })
            }),
    {
        let p9x = self.p9x_cache.get_p9x(sample_trace);
        sample_trace.set_p90(p9x);
        if self.trace_threshold > 0 {
            sample_trace.event.duration >= self.trace_threshold
        } else if p9x == 0 {
            sample_trace.is_slow_flag()
        } else {
            proof {
                assert((p9x as int) * (self.p9x_increase_percent as int) <= u128::MAX)
                    by (nonlinear_arith)
                    requires
                        p9x <= u64::MAX,
                        self.p9x_increase_percent <= 1_000_000,
                ;
            }
            (sample_trace.event.duration as u128) * 100 >= (p9x as u128) * (
            self.p9x_increase_percent as u128)
        }
    }

    /// The head-based sampling test: a (pid, endpoint) in cool-down is
    /// never re-sampled; otherwise slowness decides.
    pub fn is_sampled(&self, sample_trace: &mut SampleTrace) -> (r: bool)
        requires
            self.wf(),
        ensures
            ({
                let hit = has_url_hit(
                    self.hits(),
                    old(sample_trace)@.event.pid,
                    old(sample_trace)@.event.content_key,
                );
                let p9x = crate::p9x_cache::p9x_of(
                    self.p9x_cache.table(),
                    old(sample_trace)@.event.container_id,
                    old(sample_trace)@.event.content_key,
                );
                &&& r == (!hit && spec_is_slow(
                    self.trace_threshold,
                    self.p9x_increase_percent,
                    p9x,
                    old(sample_trace)@.event,
                ))
                &&& hit ==> final(sample_trace)@ == old(sample_trace)@
                &&& !hit ==> final(sample_trace)@ == (SampleTraceView {
                    event: TraceEventView { p90: p9x, ..old(sample_trace)@.event },
                    ..old(sample_trace)@
                })
            }),
    {
        let ghost s = self.hits();
        let mut i: usize = 0;
        while i < self.url_hits.len()
            invariant
                i <= s.len(),
                s == self.hits(),
                s.len() == self.url_hits@.len(),
                forall|m: int|
                    0 <= m < i ==> !((#[trigger] s[m]).pid == sample_trace@.event.pid && s[m].url
                        == sample_trace@.event.content_key),
            decreases s.len() - i,
        {
            let entry = &self.url_hits[i];
            proof {
                assert(entry@ == s[i as int]);
            }
            if entry.pid == sample_trace.event.pid && entry.url.eq(&sample_trace.event.content_key) {
                return false;
            }
            i = i + 1;
        }
        self.is_slow(sample_trace)
    }

    /// Whether a baseline profile is still owed for this (container,
    /// endpoint); a yes registers the pair at `now_ns`.
    pub fn is_normal_sampled(&mut self, sample_trace: &SampleTrace, now_ns: u64) -> (r: bool)
        requires
            old(self).wf(),
        ensures
            final(self).wf(),
            old(self).same_config(final(self)),
            final(self).cached() == old(self).cached(),
            final(self).ids() == old(self).ids(),
            final(self).hits() == old(self).hits(),
            final(self).un_send_ids@ == old(self).un_send_ids@,
            final(self).query_time == old(self).query_time,
            final(self).p9x_cache.table() == old(self).p9x_cache.table(),
            r == !has_normal(
                old(self).normal_sent_cache.deep_view(),
                sample_trace@.event.container_id,
                sample_trace@.event.content_key,
            ),
            r ==> final(self).normal_sent_cache.deep_view().len() == old(
                self,
            ).normal_sent_cache.deep_view().len() + 1,
            !r ==> final(self).normal_sent_cache.deep_view() == old(
                self,
            ).normal_sent_cache.deep_view(),
    {
        let ghost s = self.normal_sent_cache.deep_view();
        let ghost snap = *self;
        let mut i: usize = 0;
        while i < self.normal_sent_cache.len()
            invariant
                *self == snap,
                snap.wf(),
                i <= s.len(),
                s == self.normal_sent_cache.deep_view(),
                s.len() == self.normal_sent_cache@.len(),
                forall|m: int|
                    0 <= m < i ==> !((#[trigger] s[m]).container_id
                        == sample_trace@.event.container_id && s[m].content_key
                        == sample_trace@.event.content_key),
            decreases s.len() - i,
        {
            let entry = &self.normal_sent_cache[i];
            proof {
                assert(entry@ == s[i as int]);
            }
            if entry.container_id.eq(&sample_trace.event.container_id) && entry.content_key.eq(
                &sample_trace.event.content_key,
            ) {
                return false;
            }
            i = i + 1;
        }
        self.normal_sent_cache.push(
            NormalKey {
                container_id: sample_trace.get_container_id(),
                content_key: sample_trace.get_content_key(),
                time_ns: now_ns,
            },
        );
        true
    }

    /// The profiling signal a baseline profile sends.
    pub fn store_normal_profiling(&self, sample_trace: &SampleTrace) -> (r: TraceEvent)
        ensures
            r@ == sample_trace@.event,
    {
        sample_trace.event.clone()
    }

    /// Queues a record for later re-evaluation by the sweep.
    pub fn cache_sample_trace(&mut self, sample_trace: SampleTrace)
        requires
            old(self).wf(),
            sample_trace.event.duration <= sample_trace.event.end_time,
        ensures
            final(self).wf(),
            old(self).same_config(final(self)),
            final(self).cached() == old(self).cached().push(sample_trace@),
            final(self).ids() == old(self).ids(),
            final(self).hits() == old(self).hits(),
            final(self).un_send_ids@ == old(self).un_send_ids@,
            final(self).query_time == old(self).query_time,
            final(self).p9x_cache.table() == old(self).p9x_cache.table(),
            final(self).normal_sent_cache.deep_view() == old(self).normal_sent_cache.deep_view(),
    {
        self.trace_cache.push(sample_trace);
        proof {
            assert(self.cached() =~= old(self).cached().push(self.trace_cache@.last().deep_view()));
        }
    }

    /// Stores profiling for a record: marks it profiled, opens the
    /// (pid, endpoint) cool-down, registers the trace id for the verdict
    /// exchange unless the profile came from a tail-base verdict, and
    /// hands back the profiling signal.  A record already sampled at its
    /// entry is skipped entirely.
    pub fn store_profiling(
        &mut self,
        sample_trace: &mut SampleTrace,
        is_tail_base_profiled: bool,
        now_ns: u64,
    ) -> (r: Option<TraceEvent>)
        requires
            old(self).wf(),
        ensures
            final(self).wf(),
            old(self).same_config(final(self)),
            final(self).cached() == old(self).cached(),
            final(self).query_time == old(self).query_time,
            final(self).p9x_cache.table() == old(self).p9x_cache.table(),
            final(self).normal_sent_cache.deep_view() == old(self).normal_sent_cache.deep_view(),
            old(sample_trace)@.is_sampled ==> {
                &&& r is None
                &&& final(sample_trace)@ == old(sample_trace)@
                &&& final(self).ids() == old(self).ids()
                &&& final(self).hits() == old(self).hits()
                &&& final(self).un_send_ids@ == old(self).un_send_ids@
            },
            !old(sample_trace)@.is_sampled ==> {
                &&& r matches Some(te) && te@ == (TraceEventView {
                    is_profiled: true,
                    ..old(sample_trace)@.event
                })
                &&& final(sample_trace)@ == (SampleTraceView {
                    event: TraceEventView { is_profiled: true, ..old(sample_trace)@.event },
                    ..old(sample_trace)@
                })
                &&& final(self).hits() == spec_hit_upsert(
                    old(self).hits(),
                    old(sample_trace)@.event.pid,
                    old(sample_trace)@.event.content_key,
                    now_ns,
                )
                &&& !is_tail_base_profiled ==> contains_id(
                    final(self).ids(),
                    old(sample_trace)@.event.trace_id,
                )
                &&& if is_tail_base_profiled || contains_id(
                    old(self).ids(),
                    old(sample_trace)@.event.trace_id,
                ) {
                    final(self).ids() == old(self).ids() && final(self).un_send_ids@ == old(
                        self,
                    ).un_send_ids@
                } else {
                    final(self).ids() == old(self).ids().push(
                        IdTimeView {
                            trace_id: old(sample_trace)@.event.trace_id,
                            time_ns: now_ns,
                        },
                    ) && if old(self).un_send_ids@.to_send_ids.len() < i32::MAX {
                        final(self).un_send_ids@ == (UnSendIdsView {
                            to_send_ids: old(self).un_send_ids@.to_send_ids.push(
                                old(sample_trace)@.event.trace_id,
                            ),
                            ..old(self).un_send_ids@
                        })
                    } else {
                        final(self).un_send_ids@ == old(self).un_send_ids@
                    }
                }
            },
    {
        if sample_trace.is_sampled {
            return None;
        }
        sample_trace.set_profiled(true);

        let ghost hits0 = self.hits();
        let ghost snap = *self;
        let pid = sample_trace.event.pid;
        let mut i: usize = 0;
        let mut found: bool = false;
        while i < self.url_hits.len() && !found
            invariant
                *self == snap,
                snap.wf(),
                i <= hits0.len(),
                hits0 == self.hits(),
                hits0.len() == self.url_hits@.len(),
                !found ==> forall|m: int|
                    0 <= m < i ==> !((#[trigger] hits0[m]).pid == pid && hits0[m].url
                        == sample_trace@.event.content_key),
                found ==> i < hits0.len() && hits0[i as int].pid == pid && hits0[i as int].url
                    == sample_trace@.event.content_key && (forall|m: int|
                    0 <= m < i ==> !((#[trigger] hits0[m]).pid == pid && hits0[m].url
                        == sample_trace@.event.content_key)),
                pid == sample_trace@.event.pid,
            decreases hits0.len() - i, (if found { 0int } else { 1int }),
        {
            if self.url_hits[i].pid == pid && self.url_hits[i].url.eq(&sample_trace.event.content_key) {
                found = true;
            } else {
                i = i + 1;
            }
        }
        if found {
            let ghost prev = self.url_hits@;
            let entry = &mut self.url_hits[i];
            entry.time_ns = now_ns;
            proof {
                assert forall|m: int| 0 <= m < self.hits().len() implies self.hits()[m]
                    == hits0.update(
                    i as int,
                    UrlHitView {
                        pid,
                        url: sample_trace@.event.content_key,
                        time_ns: now_ns,
                    },
                )[m] by {
                    assert(self.hits()[m] == self.url_hits@[m]@);
                    if m != i {
                        assert(self.url_hits@[m] == prev[m]);
                    }
                }
                assert(self.hits() =~= hits0.update(
                    i as int,
                    UrlHitView { pid, url: sample_trace@.event.content_key, time_ns: now_ns },
                ));
                lemma_hit_upsert_found(hits0, pid, sample_trace@.event.content_key, now_ns, i as int);
            }
        } else {
            self.url_hits.push(
                UrlHit { pid, url: sample_trace.get_content_key(), time_ns: now_ns },
            );
            proof {
                assert(self.hits() =~= hits0.push(
                    UrlHitView { pid, url: sample_trace@.event.content_key, time_ns: now_ns },
                ));
                lemma_hit_upsert_none(hits0, pid, sample_trace@.event.content_key, now_ns);
            }
        }

        if !is_tail_base_profiled {
            let ghost ids0 = self.ids();
            let ghost snap2 = *self;
            let mut k: usize = 0;
            let mut id_found: bool = false;
            while k < self.sampled_trace_ids.len() && !id_found
                invariant
                    *self == snap2,
                    snap2.wf(),
                    k <= ids0.len(),
                    ids0 == self.ids(),
                    ids0.len() == self.sampled_trace_ids@.len(),
                    !id_found ==> forall|m: int|
                        0 <= m < k ==> (#[trigger] ids0[m]).trace_id
                            != sample_trace@.event.trace_id,
                    id_found ==> k < ids0.len() && ids0[k as int].trace_id
                        == sample_trace@.event.trace_id,
                decreases ids0.len() - k, (if id_found { 0int } else { 1int }),
            {
                if self.sampled_trace_ids[k].trace_id.eq(&sample_trace.event.trace_id) {
                    id_found = true;
                } else {
                    k = k + 1;
                }
            }
            if !id_found {
                self.sampled_trace_ids.push(
                    IdTime { trace_id: sample_trace.event.trace_id.clone(), time_ns: now_ns },
                );
                proof {
                    assert(self.ids() =~= ids0.push(
                        IdTimeView { trace_id: sample_trace@.event.trace_id, time_ns: now_ns },
                    ));
                    assert(contains_id(self.ids(), sample_trace@.event.trace_id)) by {
                        assert(self.ids()[ids0.len() as int].trace_id
                            == sample_trace@.event.trace_id);
                    }
                }
                if self.un_send_ids.get_to_send_count() < i32::MAX {
                    self.un_send_ids.cache_ids(sample_trace.event.trace_id.clone());
                }
            }
        }
        Some(sample_trace.event.clone())
    }

    /// The exported form of a record kept by the sampler.
    pub fn store_trace(&self, sample_trace: &SampleTrace) -> (r: crate::export_model::Trace)
        requires
            sample_trace.event.duration <= sample_trace.event.end_time,
        ensures
            r@ == crate::export_model::trace_of(sample_trace@.event),
    {
        crate::export_model::Trace::new(sample_trace.event.clone())
    }

    /// Profiles and stores a record the verdict service confirmed: the
    /// profile is exported only when the record is slow and the tail-base
    /// export flag is on; the trace record is always stored.
    pub fn tail_base_profiling(&mut self, sample_trace: &mut SampleTrace, now_ns: u64) -> (r: (
        Option<TraceEvent>,
        crate::export_model::Trace,
    ))
        requires
            old(self).wf(),
            old(sample_trace).event.duration <= old(sample_trace).event.end_time,
        ensures
            final(self).wf(),
            old(self).same_config(final(self)),
            final(self).cached() == old(self).cached(),
            final(self).ids() == old(self).ids(),
            final(self).un_send_ids@ == old(self).un_send_ids@,
            final(self).query_time == old(self).query_time,
            final(self).p9x_cache.table() == old(self).p9x_cache.table(),
            final(self).normal_sent_cache.deep_view() == old(self).normal_sent_cache.deep_view(),
            ({
                let p9x = crate::p9x_cache::p9x_of(
                    old(self).p9x_cache.table(),
                    old(sample_trace)@.event.container_id,
                    old(sample_trace)@.event.content_key,
                );
                let slow = spec_is_slow(
                    old(self).trace_threshold,
                    old(self).p9x_increase_percent,
                    p9x,
                    old(sample_trace)@.event,
                );
                let st1 = SampleTraceView {
                    event: TraceEventView { p90: p9x, ..old(sample_trace)@.event },
                    ..old(sample_trace)@
                };
                if slow && old(self).store_profile_tailbase && !st1.is_sampled {
                    &&& r.0 matches Some(te) && te@ == (TraceEventView {
                        is_profiled: true,
                        ..st1.event
                    })
                    &&& final(sample_trace)@ == (SampleTraceView {
                        event: TraceEventView { is_profiled: true, ..st1.event },
                        ..st1
                    })
                    &&& final(self).hits() == spec_hit_upsert(
                        old(self).hits(),
                        old(sample_trace)@.event.pid,
                        old(sample_trace)@.event.content_key,
                        now_ns,
                    )
                    &&& r.1@ == crate::export_model::trace_of(final(sample_trace)@.event)
                } else {
                    &&& r.0 is None
                    &&& final(sample_trace)@ == st1
                    &&& final(self).hits() == old(self).hits()
                    &&& r.1@ == crate::export_model::trace_of(st1.event)
                }
            }),
    {
        let slow = self.is_slow(sample_trace);
        let mut signal: Option<TraceEvent> = None;
        if slow && self.store_profile_tailbase {
            signal = self.store_profiling(sample_trace, true, now_ns);
        }
        let trace = self.store_trace(sample_trace);
        (signal, trace)
    }
}

/// The confirmed ids that survive one sweep at `now`: ids older than the
/// hold time leave; a hold time reaching past the epoch keeps everything.
pub open spec fn spec_keep_ids(s: Seq<IdTimeView>, now: u64, hold: u64) -> Seq<IdTimeView>
    decreases s.len(),
{
    if s.len() == 0 {
        Seq::empty()
    } else {
        (if hold <= now && s[0].time_ns < now - hold {
            Seq::empty()
        } else {
            seq![s[0]]
        }) + spec_keep_ids(s.skip(1), now, hold)
    }
}

pub open spec fn spec_keep_hits(s: Seq<UrlHitView>, now: u64, dur: u64) -> Seq<UrlHitView>
    decreases s.len(),
{
    if s.len() == 0 {
        Seq::empty()
    } else {
        (if dur <= now && s[0].time_ns < now - dur {
            Seq::empty()
        } else {
            seq![s[0]]
        }) + spec_keep_hits(s.skip(1), now, dur)
    }
}

/// The cool-downs one sweep expires, in order: the source resumes fine
/// instrumentation for these endpoints.
pub open spec fn spec_expired_hits(s: Seq<UrlHitView>, now: u64, dur: u64) -> Seq<UrlHitView>
    decreases s.len(),
{
    if s.len() == 0 {
        Seq::empty()
    } else {
        (if dur <= now && s[0].time_ns < now - dur {
            seq![s[0]]
        } else {
            Seq::empty()
        }) + spec_expired_hits(s.skip(1), now, dur)
    }
}

/// The moving state of the pending-list rescan.
#[verifier::ext_equal]
pub ghost struct RescanState {
    pub kept: Seq<SampleTraceView>,
    pub hits: Seq<UrlHitView>,
    pub signals: Seq<TraceEventView>,
    pub traces: Seq<crate::export_model::TraceView>,
}

/// One pending record re-evaluated: a confirmed one is profiled under the
/// tail-base rules and leaves; one with budget left is requeued one cycle
/// poorer; an exhausted one is dropped.
pub open spec fn rescan_step(
    st: RescanState,
    t: SampleTraceView,
    ids: Seq<IdTimeView>,
    table: Seq<crate::p9x_cache::ContainerEntryView>,
    threshold: u64,
    percent: u64,
    tailflag: bool,
    now: u64,
) -> RescanState {
    if contains_id(ids, t.event.trace_id) {
        let p9x = crate::p9x_cache::p9x_of(table, t.event.container_id, t.event.content_key);
        let slow = spec_is_slow(threshold, percent, p9x, t.event);
        let t1 = SampleTraceView { event: TraceEventView { p90: p9x, ..t.event }, ..t };
        if slow && tailflag && !t1.is_sampled {
            let t2 = SampleTraceView {
                event: TraceEventView { is_profiled: true, ..t1.event },
                ..t1
            };
            RescanState {
                kept: st.kept,
                hits: spec_hit_upsert(st.hits, t.event.pid, t.event.content_key, now),
                signals: st.signals.push(t2.event),
                traces: st.traces.push(crate::export_model::trace_of(t2.event)),
            }
        } else {
            RescanState { traces: st.traces.push(crate::export_model::trace_of(t1.event)), ..st }
        }
    } else if t.repeat_num > 0 {
        RescanState {
            kept: st.kept.push(
                SampleTraceView { repeat_num: (t.repeat_num - 1) as i32, ..t },
            ),
            ..st
        }
    } else {
        st
    }
}

pub open spec fn rescan_from(
    st: RescanState,
    ts: Seq<SampleTraceView>,
    i: int,
    ids: Seq<IdTimeView>,
    table: Seq<crate::p9x_cache::ContainerEntryView>,
    threshold: u64,
    percent: u64,
    tailflag: bool,
    now: u64,
) -> RescanState
    decreases ts.len() - i,
{
    if i < 0 || i >= ts.len() {
        st
    } else {
        rescan_from(
            rescan_step(st, ts[i], ids, table, threshold, percent, tailflag, now),
            ts,
            i + 1,
            ids,
            table,
            threshold,
            percent,
            tailflag,
            now,
        )
    }
}

/// What one maintenance sweep hands the surrounding program.
pub struct SweepOutcome {
    pub expired_urls: Vec<UrlHit>,
    pub signals: Vec<TraceEvent>,
    pub traces: Vec<crate::export_model::Trace>,
}

impl SampleCache {
    /// The one-second maintenance sweep: evicts expired confirmed ids and
    /// cool-downs (reporting the expired endpoints so instrumentation can
    /// resume), then re-evaluates the pending list against the confirmed
    /// set.
    pub fn check_tail_base_traces(&mut self, now_ns: u64) -> (r: SweepOutcome)
        requires
            old(self).wf(),
        ensures
            final(self).wf(),
            old(self).same_config(final(self)),
            final(self).un_send_ids@ == old(self).un_send_ids@,
            final(self).query_time == old(self).query_time,
            final(self).p9x_cache.table() == old(self).p9x_cache.table(),
            final(self).normal_sent_cache.deep_view() == old(self).normal_sent_cache.deep_view(),
            final(self).ids() == spec_keep_ids(old(self).ids(), now_ns, old(self).trace_hold_time),
            r.expired_urls.deep_view() == spec_expired_hits(
                old(self).hits(),
                now_ns,
                old(self).url_hit_duration,
            ),
            ({
                let rs = rescan_from(
                    RescanState {
                        kept: Seq::empty(),
                        hits: spec_keep_hits(old(self).hits(), now_ns, old(self).url_hit_duration),
                        signals: Seq::empty(),
                        traces: Seq::empty(),
                    },
                    old(self).cached(),
                    0,
                    spec_keep_ids(old(self).ids(), now_ns, old(self).trace_hold_time),
                    old(self).p9x_cache.table(),
                    old(self).trace_threshold,
                    old(self).p9x_increase_percent,
                    old(self).store_profile_tailbase,
                    now_ns,
                );
                &&& final(self).cached() == rs.kept
                &&& final(self).hits() == rs.hits
                &&& r.signals.deep_view() == rs.signals
                &&& r.traces.deep_view() == rs.traces
            }),
    {
        let ghost ids0 = self.ids();
        let ghost hits0 = self.hits();
        let ghost cached0 = self.cached();
        let hold = self.trace_hold_time;
        let dur = self.url_hit_duration;

        // Evict expired confirmed trace ids.
        let n_ids = self.sampled_trace_ids.len();
        let mut kept_ids: Vec<IdTime> = Vec::new();
        let mut i: usize = 0;
        proof {
            assert(ids0.skip(0) =~= ids0);
            assert(kept_ids.deep_view() + spec_keep_ids(ids0.skip(0), now_ns, hold)
                =~= spec_keep_ids(ids0, now_ns, hold));
        }
        while i < n_ids
            invariant
                i <= n_ids,
                n_ids == self.sampled_trace_ids@.len(),
                ids0 == self.ids(),
                ids0.len() == n_ids,
                hold == self.trace_hold_time,
                kept_ids.deep_view() + spec_keep_ids(ids0.skip(i as int), now_ns, hold)
                    == spec_keep_ids(ids0, now_ns, hold),
            decreases n_ids - i,
        {
            let entry = &self.sampled_trace_ids[i];
            proof {
                assert(entry@ == ids0[i as int]);
                assert(ids0.skip(i as int)[0] == ids0[i as int]);
                lemma_seq_skip_of_skip(ids0, i as int, 1);
                assert(ids0.skip(i as int).skip(1) =~= ids0.skip(i + 1));
            }
            let ghost kb = kept_ids.deep_view();
            if !(hold <= now_ns && entry.time_ns < now_ns - hold) {
                kept_ids.push(IdTime { trace_id: entry.trace_id.clone(), time_ns: entry.time_ns });
                proof {
                    assert(kept_ids.deep_view() =~= kb.push(ids0[i as int]));
                }
            }
            proof {
                assert(kept_ids.deep_view() + spec_keep_ids(ids0.skip(i + 1), now_ns, hold) =~= kb
                    + spec_keep_ids(ids0.skip(i as int), now_ns, hold));
            }
            i = i + 1;
        }
        self.sampled_trace_ids = kept_ids;
        proof {
            assert(spec_keep_ids(ids0.skip(n_ids as int), now_ns, hold) =~= Seq::<
                IdTimeView,
            >::empty());
            assert(self.ids() =~= self.ids() + Seq::<IdTimeView>::empty());
            assert(self.ids() == spec_keep_ids(ids0, now_ns, hold));
        }

        // Evict expired cool-downs, keeping the expired endpoints.
        let n_hits = self.url_hits.len();
        let mut kept_hits: Vec<UrlHit> = Vec::new();
        let mut expired_urls: Vec<UrlHit> = Vec::new();
        let mut j: usize = 0;
        proof {
            assert(hits0.skip(0) =~= hits0);
            assert(kept_hits.deep_view() + spec_keep_hits(hits0.skip(0), now_ns, dur)
                =~= spec_keep_hits(hits0, now_ns, dur));
            assert(expired_urls.deep_view() + spec_expired_hits(hits0.skip(0), now_ns, dur)
                =~= spec_expired_hits(hits0, now_ns, dur));
        }
        while j < n_hits
            invariant
                j <= n_hits,
                n_hits == self.url_hits@.len(),
                hits0 == self.hits(),
                hits0.len() == n_hits,
                dur == self.url_hit_duration,
                kept_hits.deep_view() + spec_keep_hits(hits0.skip(j as int), now_ns, dur)
                    == spec_keep_hits(hits0, now_ns, dur),
                expired_urls.deep_view() + spec_expired_hits(hits0.skip(j as int), now_ns, dur)
                    == spec_expired_hits(hits0, now_ns, dur),
            decreases n_hits - j,
        {
            let entry = &self.url_hits[j];
            proof {
                assert(entry@ == hits0[j as int]);
                assert(hits0.skip(j as int)[0] == hits0[j as int]);
                lemma_seq_skip_of_skip(hits0, j as int, 1);
                assert(hits0.skip(j as int).skip(1) =~= hits0.skip(j + 1));
            }
            let ghost kb = kept_hits.deep_view();
            let ghost eb = expired_urls.deep_view();
            if dur <= now_ns && entry.time_ns < now_ns - dur {
                expired_urls.push(entry.clone());
                proof {
                    assert(expired_urls.deep_view() =~= eb.push(hits0[j as int]));
                }
            } else {
                kept_hits.push(entry.clone());
                proof {
                    assert(kept_hits.deep_view() =~= kb.push(hits0[j as int]));
                }
            }
            proof {
                assert(kept_hits.deep_view() + spec_keep_hits(hits0.skip(j + 1), now_ns, dur)
                    =~= kb + spec_keep_hits(hits0.skip(j as int), now_ns, dur));
                assert(expired_urls.deep_view() + spec_expired_hits(hits0.skip(j + 1), now_ns, dur)
                    =~= eb + spec_expired_hits(hits0.skip(j as int), now_ns, dur));
            }
            j = j + 1;
        }
        self.url_hits = kept_hits;
        proof {
            assert(spec_keep_hits(hits0.skip(n_hits as int), now_ns, dur) =~= Seq::<
                UrlHitView,
            >::empty());
            assert(spec_expired_hits(hits0.skip(n_hits as int), now_ns, dur) =~= Seq::<
                UrlHitView,
            >::empty());
            assert(self.hits() =~= self.hits() + Seq::<UrlHitView>::empty());
            assert(expired_urls.deep_view() =~= expired_urls.deep_view() + Seq::<
                UrlHitView,
            >::empty());
        }

        // Re-evaluate the pending list against the confirmed set.
        let ghost ids1 = self.ids();
        let ghost hits1 = self.hits();
        let mut last_loop_traces: Vec<SampleTrace> = Vec::new();
        core::mem::swap(&mut last_loop_traces, &mut self.trace_cache);
        let mut signals: Vec<TraceEvent> = Vec::new();
        let mut traces: Vec<crate::export_model::Trace> = Vec::new();
        let ghost init = RescanState {
            kept: Seq::empty(),
            hits: hits1,
            signals: Seq::empty(),
            traces: Seq::empty(),
        };
        let mut k: usize = 0;
        proof {
            assert(self.cached() =~= Seq::<SampleTraceView>::empty());
            assert(signals.deep_view() =~= Seq::<TraceEventView>::empty());
            assert(traces.deep_view() =~= Seq::<crate::export_model::TraceView>::empty());
        }
        while k < last_loop_traces.len()
            invariant
                self.wf(),
                k <= cached0.len(),
                cached0 == last_loop_traces.deep_view(),
                cached0.len() == last_loop_traces@.len(),
                forall|m: int|
                    0 <= m < cached0.len() ==> (#[trigger] cached0[m]).event.duration
                        <= cached0[m].event.end_time,
                self.ids() == ids1,
                self.un_send_ids@ == old(self).un_send_ids@,
                self.query_time == old(self).query_time,
                self.p9x_cache.table() == old(self).p9x_cache.table(),
                self.normal_sent_cache.deep_view() == old(self).normal_sent_cache.deep_view(),
                old(self).same_config(self),
                rescan_from(
                    RescanState {
                        kept: self.cached(),
                        hits: self.hits(),
                        signals: signals.deep_view(),
                        traces: traces.deep_view(),
                    },
                    cached0,
                    k as int,
                    ids1,
                    self.p9x_cache.table(),
                    self.trace_threshold,
                    self.p9x_increase_percent,
                    self.store_profile_tailbase,
                    now_ns,
                ) == rescan_from(
                    init,
                    cached0,
                    0,
                    ids1,
                    self.p9x_cache.table(),
                    self.trace_threshold,
                    self.p9x_increase_percent,
                    self.store_profile_tailbase,
                    now_ns,
                ),
            decreases cached0.len() - k,
        {
            let mut sample_trace = last_loop_traces[k].clone();
            proof {
                assert(sample_trace@ == cached0[k as int]);
            }
            let ghost st_before = RescanState {
                kept: self.cached(),
                hits: self.hits(),
                signals: signals.deep_view(),
                traces: traces.deep_view(),
            };
            if self.is_tail_base_sampled(&sample_trace) {
                let (signal, trace) = self.tail_base_profiling(&mut sample_trace, now_ns);
                match signal {
                    Some(te) => {
                        let ghost sb = signals.deep_view();
                        signals.push(te);
                        proof {
                            assert(signals.deep_view() =~= sb.push(
                                signals@.last().deep_view(),
                            ));
                        }
                    },
                    None => {},
                }
                let ghost tb = traces.deep_view();
                traces.push(trace);
                proof {
                    assert(traces.deep_view() =~= tb.push(traces@.last().deep_view()));
                    assert(RescanState {
                        kept: self.cached(),
                        hits: self.hits(),
                        signals: signals.deep_view(),
                        traces: traces.deep_view(),
                    } =~= rescan_step(
                        st_before,
                        cached0[k as int],
                        ids1,
                        self.p9x_cache.table(),
                        self.trace_threshold,
                        self.p9x_increase_percent,
                        self.store_profile_tailbase,
                        now_ns,
                    ));
                }
            } else if sample_trace.repeat_num > 0 {
                sample_trace.repeat_num = sample_trace.repeat_num - 1;
                let ghost cb = self.cached();
                self.trace_cache.push(sample_trace);
                proof {
                    assert(self.cached() =~= cb.push(self.trace_cache@.last().deep_view()));
                    assert(RescanState {
                        kept: self.cached(),
                        hits: self.hits(),
                        signals: signals.deep_view(),
                        traces: traces.deep_view(),
                    } =~= rescan_step(
                        st_before,
                        cached0[k as int],
                        ids1,
                        self.p9x_cache.table(),
                        self.trace_threshold,
                        self.p9x_increase_percent,
                        self.store_profile_tailbase,
                        now_ns,
                    ));
                }
            } else {
                proof {
                    assert(RescanState {
                        kept: self.cached(),
                        hits: self.hits(),
                        signals: signals.deep_view(),
                        traces: traces.deep_view(),
                    } =~= rescan_step(
                        st_before,
                        cached0[k as int],
                        ids1,
                        self.p9x_cache.table(),
                        self.trace_threshold,
                        self.p9x_increase_percent,
                        self.store_profile_tailbase,
                        now_ns,
                    ));
                }
            }
            k = k + 1;
        }
        SweepOutcome { expired_urls, signals, traces }
    }

    /// The batch the next verdict exchange sends: the last acknowledged
    /// query time and every queued id, oldest first.
    pub fn prepare_trace_ids(&self) -> (r: (i64, Vec<String>))
        requires
            self.wf(),
        ensures
            r.0 == self.query_time,
            r.1.deep_view() == self.un_send_ids@.to_send_ids,
    {
        let count = self.un_send_ids.get_to_send_count();
        let ids = self.un_send_ids.get_to_send_ids(count as usize);
        proof {
            assert(self.un_send_ids@.to_send_ids.take(self.un_send_ids@.to_send_ids.len() as int)
                =~= self.un_send_ids@.to_send_ids);
        }
        (self.query_time, ids)
    }

    /// A successful exchange: the sent batch leaves the queue, the
    /// service's query time is kept for the next round, and its confirmed
    /// ids join the tail-base set stamped with `now_ns`.
    pub fn apply_send_success(
        &mut self,
        sent_count: i32,
        response_query_time: i64,
        confirmed: &Vec<String>,
        now_ns: u64,
    )
        requires
            old(self).wf(),
            0 <= sent_count <= old(self).un_send_ids@.to_send_ids.len(),
        ensures
            final(self).wf(),
            old(self).same_config(final(self)),
            final(self).cached() == old(self).cached(),
            final(self).hits() == old(self).hits(),
            final(self).p9x_cache.table() == old(self).p9x_cache.table(),
            final(self).normal_sent_cache.deep_view() == old(self).normal_sent_cache.deep_view(),
            final(self).query_time == response_query_time,
            sent_count > 0 ==> final(self).un_send_ids@ == spec_mark_sent(
                old(self).un_send_ids@,
                sent_count,
            ),
            sent_count == 0 ==> final(self).un_send_ids@ == old(self).un_send_ids@,
            final(self).ids() == spec_ids_upsert_all(
                old(self).ids(),
                confirmed.deep_view(),
                0,
                now_ns,
            ),
    {
        if sent_count > 0 {
            self.un_send_ids.mark_sent(sent_count);
        }
        self.query_time = response_query_time;
        let ghost cvs = confirmed.deep_view();
        let mut i: usize = 0;
        while i < confirmed.len()
            invariant
                i <= cvs.len(),
                cvs == confirmed.deep_view(),
                cvs.len() == confirmed@.len(),
                self.wf(),
                old(self).same_config(self),
                self.cached() == old(self).cached(),
                self.hits() == old(self).hits(),
                self.p9x_cache.table() == old(self).p9x_cache.table(),
                self.normal_sent_cache.deep_view() == old(self).normal_sent_cache.deep_view(),
                self.query_time == response_query_time,
                sent_count > 0 ==> self.un_send_ids@ == spec_mark_sent(
                    old(self).un_send_ids@,
                    sent_count,
                ),
                sent_count == 0 ==> self.un_send_ids@ == old(self).un_send_ids@,
                spec_ids_upsert_all(self.ids(), cvs, i as int, now_ns) == spec_ids_upsert_all(
                    old(self).ids(),
                    cvs,
                    0,
                    now_ns,
                ),
            decreases cvs.len() - i,
        {
            let id = &confirmed[i];
            proof {
                assert(id@ == cvs[i as int]);
            }
            self.upsert_sampled_id(id, now_ns);
            i = i + 1;
        }
    }

    /// A failed exchange: the whole pending batch is recorded as one more
    /// failed cycle; nothing is dropped unless the retry ring is already
    /// full, and then only from the queue's front.
    pub fn apply_send_failure(&mut self, sent_count: i32)
        requires
            old(self).wf(),
            sent_count == old(self).un_send_ids@.to_send_ids.len(),
        ensures
            final(self).wf(),
            old(self).same_config(final(self)),
            final(self).cached() == old(self).cached(),
            final(self).ids() == old(self).ids(),
            final(self).hits() == old(self).hits(),
            final(self).query_time == old(self).query_time,
            final(self).p9x_cache.table() == old(self).p9x_cache.table(),
            final(self).normal_sent_cache.deep_view() == old(self).normal_sent_cache.deep_view(),
            final(self).un_send_ids@ == spec_mark_unsent(old(self).un_send_ids@, sent_count),
            old(self).un_send_ids@.size < old(self).un_send_ids@.counts.len()
                ==> final(self).un_send_ids@.to_send_ids == old(self).un_send_ids@.to_send_ids,
    {
        self.un_send_ids.mark_unsent(sent_count);
        proof {
            if old(self).un_send_ids@.size < old(self).un_send_ids@.counts.len() {
                lemma_retry_keeps_batch(old(self).un_send_ids@, sent_count);
            }
        }
    }

    /// Folds one confirmed id into the tail-base set.
    fn upsert_sampled_id(&mut self, id: &String, now_ns: u64)
        requires
            old(self).wf(),
        ensures
            final(self).wf(),
            old(self).same_config(final(self)),
            final(self).cached() == old(self).cached(),
            final(self).hits() == old(self).hits(),
            final(self).un_send_ids@ == old(self).un_send_ids@,
            final(self).query_time == old(self).query_time,
            final(self).p9x_cache.table() == old(self).p9x_cache.table(),
            final(self).normal_sent_cache.deep_view() == old(self).normal_sent_cache.deep_view(),
            final(self).ids() == spec_id_upsert(old(self).ids(), id@, now_ns),
    {
        let ghost s = self.ids();
        let ghost snap = *self;
        let mut i: usize = 0;
        let mut found: bool = false;
        while i < self.sampled_trace_ids.len() && !found
            invariant
                *self == snap,
                snap.wf(),
                i <= s.len(),
                s == self.ids(),
                s.len() == self.sampled_trace_ids@.len(),
                !found ==> forall|m: int| 0 <= m < i ==> (#[trigger] s[m]).trace_id != id@,
                found ==> i < s.len() && s[i as int].trace_id == id@ && (forall|m: int|
                    0 <= m < i ==> (#[trigger] s[m]).trace_id != id@),
            decreases s.len() - i, (if found { 0int } else { 1int }),
        {
            if self.sampled_trace_ids[i].trace_id.eq(id) {
                found = true;
            } else {
                i = i + 1;
            }
        }
        if found {
            let ghost prev = self.sampled_trace_ids@;
            let entry = &mut self.sampled_trace_ids[i];
            entry.time_ns = now_ns;
            proof {
                assert forall|m: int| 0 <= m < self.ids().len() implies self.ids()[m] == s.update(
                    i as int,
                    IdTimeView { trace_id: id@, time_ns: now_ns },
                )[m] by {
                    assert(self.ids()[m] == self.sampled_trace_ids@[m]@);
                    if m != i {
                        assert(self.sampled_trace_ids@[m] == prev[m]);
                    }
                }
                assert(self.ids() =~= s.update(
                    i as int,
                    IdTimeView { trace_id: id@, time_ns: now_ns },
                ));
                lemma_id_upsert_found(s, id@, now_ns, i as int);
            }
        } else {
            self.sampled_trace_ids.push(IdTime { trace_id: id.clone(), time_ns: now_ns });
            proof {
                assert(self.ids() =~= s.push(IdTimeView { trace_id: id@, time_ns: now_ns }));
                lemma_id_upsert_none(s, id@, now_ns);
            }
        }
    }
}

/// A batch of confirmed ids folded into the tail-base set, in order.
pub open spec fn spec_ids_upsert_all(
    s: Seq<IdTimeView>,
    confirmed: Seq<Seq<char>>,
    i: int,
    now: u64,
) -> Seq<IdTimeView>
    decreases confirmed.len() - i,
{
    if i < 0 || i >= confirmed.len() {
        s
    } else {
        spec_ids_upsert_all(spec_id_upsert(s, confirmed[i], now), confirmed, i + 1, now)
    }
}

} // verus!
