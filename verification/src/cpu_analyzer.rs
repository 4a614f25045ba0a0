//! The time-segmented CPU event store.
//!
//! One rolling window of [`MAX_SEGMENT_SIZE`] one-second buckets exists
//! per (pid, tid).  Arriving events are routed by their timestamps to a
//! bucket offset range; when an event falls past the window the window
//! rebases: it is reset, re-centred, or slid by half its width, the
//! cheapest of the three that fits the overrun.

use vstd::prelude::*;

use crate::circle_queue::CircleQueue;
use crate::segment::{
    CpuEvent, CpuEventView, JavaFutexEvent, Segment, SegmentView, TimedEvent, TimedEventKind,
    TransactionIdEvent, cpu_event_wf, check_cpu_event_wf,
    MAX_SEGMENT_SIZE, NANO_TO_SECONDS, UPPER_LIMITE_TS, LOWER_LIMITE_TS,
};
use crate::tid_exit_clear::DeleteTid;
use crate::traceid_model::SignalEvent;

verus! {

/// Every base second the window can reach: `UPPER_LIMITE_TS` in seconds.
pub const BASE_TIME_BOUND: u64 = 2_000_000_000;

/// Half the window: the amount a "slide" rebase shifts by.
pub const HALF_SEGMENT_SIZE: usize = 20;

pub open spec fn sec_of(t: u64) -> u64 {
    t / NANO_TO_SECONDS
}

/// The later of two timestamps.
pub open spec fn spec_max_time(a: u64, b: u64) -> u64 {
    if b > a {
        b
    } else {
        a
    }
}

/// One thread's rolling window.
pub struct TimeSegments {
    pub pid: u32,
    pub tid: u32,
    pub thread_name: String,
    /// Epoch second of bucket 0.
    pub base_time: u64,
    pub segments: CircleQueue,
    /// Highest end timestamp of any CPU event ever ingested.
    pub latest_time: u64,
}

#[verifier::ext_equal]
pub ghost struct WinView {
    pub pid: u32,
    pub tid: u32,
    pub thread_name: Seq<char>,
    pub base_time: u64,
    pub segments: Seq<SegmentView>,
    pub latest_time: u64,
}

impl View for TimeSegments {
    type V = WinView;

    open spec fn view(&self) -> WinView {
        WinView {
            pid: self.pid,
            tid: self.tid,
            thread_name: self.thread_name@,
            base_time: self.base_time,
            segments: self.segments@,
            latest_time: self.latest_time,
        }
    }
}

impl DeepView for TimeSegments {
    type V = WinView;

    open spec fn deep_view(&self) -> WinView {
        self.view()
    }
}

/// Bucket bounds are second-aligned for its slot.
pub open spec fn seg_at(s: SegmentView, slot: int) -> bool {
    &&& s.start_time == slot * NANO_TO_SECONDS
    &&& s.end_time == (slot + 1) * NANO_TO_SECONDS
}

/// A never-written bucket for `slot`.
pub open spec fn fresh_seg(slot: int) -> SegmentView {
    SegmentView {
        start_time: (slot * NANO_TO_SECONDS) as u64,
        end_time: ((slot + 1) * NANO_TO_SECONDS) as u64,
        cpu_events: Seq::empty(),
        java_futex_event: Seq::empty(),
        transaction_id_event: Seq::empty(),
        is_send: 0,
        index_timestamp: Seq::empty(),
    }
}

pub open spec fn fresh_segments(base: int) -> Seq<SegmentView> {
    Seq::new(MAX_SEGMENT_SIZE as nat, |i: int| fresh_seg(base + i))
}

/// A window as first created for an event starting at second `base`.
pub open spec fn fresh_window(pid: u32, tid: u32, tname: Seq<char>, base: u64) -> WinView {
    WinView {
        pid,
        tid,
        thread_name: tname,
        base_time: base,
        segments: fresh_segments(base as int),
        latest_time: 0,
    }
}

/// Window shape invariant: full length, bounded base, aligned buckets,
/// and only well-formed CPU events stored.
pub open spec fn win_ok(w: WinView) -> bool {
    &&& w.segments.len() == MAX_SEGMENT_SIZE
    &&& w.base_time <= BASE_TIME_BOUND
    &&& forall|i: int|
        0 <= i < MAX_SEGMENT_SIZE ==> seg_at(#[trigger] w.segments[i], w.base_time + i)
    &&& forall|i: int, k: int|
        0 <= i < MAX_SEGMENT_SIZE && 0 <= k < w.segments[i].cpu_events.len() ==> cpu_event_wf(
            #[trigger] w.segments[i].cpu_events[k],
        )
}

impl TimeSegments {
    /// Shape invariant of the executable window, including the ring's own.
    pub open spec fn inv(&self) -> bool {
        &&& self.segments.wf()
        &&& self.segments.spec_length() == MAX_SEGMENT_SIZE
        &&& win_ok(self@)
    }

    pub fn new(
        pid: u32,
        tid: u32,
        thread_name: String,
        base_time: u64,
        segments: CircleQueue,
    ) -> (r: Self)
        ensures
            r@ == (WinView {
                pid,
                tid,
                thread_name: thread_name@,
                base_time,
                segments: segments@,
                latest_time: 0u64,
            }),
            r.segments.wf() == segments.wf(),
            r.segments.spec_length() == segments.spec_length(),
    {
        TimeSegments { pid, tid, thread_name, base_time, segments, latest_time: 0 }
    }

    pub fn update_thread_name(&mut self, thread_name: &str)
        ensures
            final(self)@ == (WinView { thread_name: thread_name@, ..old(self)@ }),
            final(self).segments.wf() == old(self).segments.wf(),
            final(self).segments.spec_length() == old(self).segments.spec_length(),
    {
        self.thread_name = thread_name.to_owned();
    }

    /// Advances the high-water mark of ingested CPU event end times; an
    /// out-of-order arrival never regresses it, so a query already
    /// answerable stays answerable.
    pub fn update_time(&mut self, end_time: u64)
        ensures
            final(self)@ == (WinView {
                latest_time: spec_max_time(old(self)@.latest_time, end_time),
                ..old(self)@
            }),
            final(self).segments.wf() == old(self).segments.wf(),
            final(self).segments.spec_length() == old(self).segments.spec_length(),
    {
        if end_time > self.latest_time {
            self.latest_time = end_time;
        }
    }
}

/// Builds the full ring of aligned, empty buckets for `base_time`.
pub fn create_initial_segments(base_time: u64) -> (r: CircleQueue)
    requires
        base_time <= BASE_TIME_BOUND,
    ensures
        r.wf(),
        r.spec_length() == MAX_SEGMENT_SIZE,
        r@ =~= fresh_segments(base_time as int),
{
    let mut segments = CircleQueue::new(MAX_SEGMENT_SIZE);
    let mut i: usize = 0;
    while i < MAX_SEGMENT_SIZE
        invariant
            i <= MAX_SEGMENT_SIZE,
            base_time <= BASE_TIME_BOUND,
            segments.wf(),
            segments.spec_length() == MAX_SEGMENT_SIZE,
            segments@.len() == MAX_SEGMENT_SIZE,
            forall|m: int| 0 <= m < i ==> #[trigger] segments@[m] == fresh_seg(base_time + m),
        decreases MAX_SEGMENT_SIZE - i,
    {
        let segment = Segment::new(
            (base_time + (i as u64)) * NANO_TO_SECONDS,
            (base_time + (i as u64) + 1) * NANO_TO_SECONDS,
        );
        segments.update_by_index(i, segment);
        i = i + 1;
    }
    segments
}

/// The event store: one window per (pid, tid), the thread-exit FIFO, and
/// the aggregation signals still waiting for their data to arrive.
pub struct CpuAnalyzer {
    pub cpu_pid_events: Vec<TimeSegments>,
    pub tid_exit_queue: Vec<DeleteTid>,
    pub metric_signals: Vec<SignalEvent>,
}

pub open spec fn win_key(w: WinView, pid: u32, tid: u32) -> bool {
    w.pid == pid && w.tid == tid
}

pub open spec fn has_win(ws: Seq<WinView>, pid: u32, tid: u32) -> bool {
    exists|i: int| 0 <= i < ws.len() && win_key(#[trigger] ws[i], pid, tid)
}

pub open spec fn win_idx(ws: Seq<WinView>, pid: u32, tid: u32) -> int {
    choose|i: int| 0 <= i < ws.len() && win_key(#[trigger] ws[i], pid, tid)
}

/// No two windows share a (pid, tid) key.
pub open spec fn keys_unique(ws: Seq<WinView>) -> bool {
    forall|i: int, j: int|
        0 <= i < ws.len() && 0 <= j < ws.len() && i != j ==> !(#[trigger] ws[i].pid
            == #[trigger] ws[j].pid && ws[i].tid == ws[j].tid)
}

impl CpuAnalyzer {
    pub open spec fn windows(&self) -> Seq<WinView> {
        self.cpu_pid_events.deep_view()
    }

    pub open spec fn wf(&self) -> bool {
        &&& forall|i: int|
            0 <= i < self.cpu_pid_events@.len() ==> (#[trigger] self.cpu_pid_events@[i]).inv()
        &&& keys_unique(self.windows())
        &&& forall|i: int|
            0 <= i < self.metric_signals@.len() ==> (#[trigger] self.metric_signals@[i]).start_time
                <= self.metric_signals@[i].end_time
    }

    pub fn new() -> (r: Self)
        ensures
            r.wf(),
            r.windows().len() == 0,
            r.tid_exit_queue@.len() == 0,
            r.metric_signals@.len() == 0,
    {
        CpuAnalyzer {
            cpu_pid_events: Vec::new(),
            tid_exit_queue: Vec::new(),
            metric_signals: Vec::new(),
        }
    }

    pub(crate) fn find_window(&self, pid: u32, tid: u32) -> (r: Option<usize>)
        requires
            self.wf(),
        ensures
            match r {
                Some(i) => i < self.windows().len() && win_key(self.windows()[i as int], pid, tid)
                    && i as int == win_idx(self.windows(), pid, tid) && has_win(
                    self.windows(),
                    pid,
                    tid,
                ),
                None => !has_win(self.windows(), pid, tid),
            },
    {
        let ghost ws = self.windows();
        let mut i: usize = 0;
        while i < self.cpu_pid_events.len()
            invariant
                self.wf(),
                ws == self.windows(),
                i <= ws.len(),
                forall|m: int| 0 <= m < i ==> !win_key(#[trigger] ws[m], pid, tid),
            decreases ws.len() - i,
        {
            let w = &self.cpu_pid_events[i];
            if w.pid == pid && w.tid == tid {
                proof {
                    assert(win_key(ws[i as int], pid, tid));
                    lemma_win_idx_agrees(ws, pid, tid, i as int);
                }
                return Some(i);
            }
            i = i + 1;
        }
        None
    }
}

/// Under unique keys, any index holding the key is the chosen one.
pub proof fn lemma_win_idx_agrees(ws: Seq<WinView>, pid: u32, tid: u32, i: int)
    requires
        keys_unique(ws),
        0 <= i < ws.len(),
        win_key(ws[i], pid, tid),
    ensures
        has_win(ws, pid, tid),
        win_idx(ws, pid, tid) == i,
{
    assert(has_win(ws, pid, tid));
    let j = win_idx(ws, pid, tid);
    assert(0 <= j < ws.len() && win_key(ws[j], pid, tid));
    if i != j {
        assert(!(ws[i].pid == ws[j].pid && ws[i].tid == ws[j].tid));
        assert(false);
    }
}

pub open spec fn spec_min(a: int, b: int) -> int {
    if a < b {
        a
    } else {
        b
    }
}

/// The rebase-and-route step on one window, after the window exists and
/// its `latest_time` was advanced.  Returns the window as the ingest
/// leaves it and, unless the event sits before the window entirely, the
/// bucket offsets the caller must stamp the event into.
pub open spec fn put_transition(
    w: WinView,
    tname: Seq<char>,
    s: u64,
    e: u64,
) -> (WinView, Option<(int, int)>) {
    let wide = MAX_SEGMENT_SIZE as int;
    let half = HALF_SEGMENT_SIZE as int;
    if sec_of(e) < w.base_time {
        (w, None)
    } else {
        let so = sec_of(s) as int - w.base_time as int;
        let eo = sec_of(e) as int - w.base_time as int;
        if !(so >= wide || eo > wide) {
            (WinView { thread_name: tname, ..w }, Some((so, spec_min(eo, wide - 1))))
        } else if 2 * so >= 3 * wide {
            let nb = sec_of(s);
            (
                WinView {
                    thread_name: tname,
                    base_time: nb,
                    segments: fresh_segments(nb as int),
                    ..w
                },
                Some((0, spec_min(eo - so, wide - 1))),
            )
        } else if eo > wide {
            let nb = (sec_of(e) - half) as u64;
            (
                WinView {
                    thread_name: tname,
                    base_time: nb,
                    segments: fresh_segments(nb as int),
                    ..w
                },
                Some((sec_of(s) as int - nb as int, half)),
            )
        } else {
            let nb = (w.base_time + half) as u64;
            let segs = Seq::new(
                MAX_SEGMENT_SIZE as nat,
                |i: int|
                    if i < half {
                        w.segments[i + half]
                    } else {
                        fresh_seg(nb + i)
                    },
            );
            let nso = if so < half {
                0
            } else {
                so - half
            };
            (
                WinView { thread_name: tname, base_time: nb, segments: segs, ..w },
                Some((nso, spec_min(eo - half, wide - 1))),
            )
        }
    }
}

/// Full description of `put_event_to_segments`: how the window table
/// changes and what the returned offsets are, for every input.
pub open spec fn put_post(
    ows: Seq<WinView>,
    nws: Seq<WinView>,
    pid: u32,
    tid: u32,
    tname: Seq<char>,
    s: u64,
    e: u64,
    k: TimedEventKind,
    r: Option<(i32, i32, usize)>,
) -> bool {
    if s > UPPER_LIMITE_TS || e > UPPER_LIMITE_TS {
        nws == ows && r is None
    } else {
        let (grown, wi, w2, ro) = put_outcome(ows, pid, tid, tname, s, e, k);
        &&& nws == grown.update(wi, w2)
        &&& match (r, ro) {
            (None, None) => true,
            (Some((a, b, i)), Some((a0, b0))) => a as int == a0 && b as int == b0 && i == wi,
            _ => false,
        }
    }
}

impl CpuAnalyzer {
    /// Routes an event to its window, creating or rebasing the window as
    /// needed, and returns the bucket offset range the event spans plus
    /// the window's position, or nothing when the event lies before the
    /// window or carries a garbage timestamp.
    pub fn put_event_to_segments<E: TimedEvent>(
        &mut self,
        pid: u32,
        tid: u32,
        thread_name: &str,
        event: &E,
    ) -> (r: Option<(i32, i32, usize)>)
        requires
            old(self).wf(),
        ensures
            final(self).wf(),
            put_post(
                old(self).windows(),
                final(self).windows(),
                pid,
                tid,
                thread_name@,
                event.spec_start_timestamp(),
                event.spec_end_timestamp(),
                event.spec_kind(),
                r,
            ),
            final(self).tid_exit_queue@ == old(self).tid_exit_queue@,
            final(self).metric_signals@ == old(self).metric_signals@,
            r matches Some((a, b, i)) ==> b < MAX_SEGMENT_SIZE as i32 && (i as int) < final(self).windows().len(),
    {
        let s = event.start_timestamp();
        let e = event.end_timestamp();
        if e > UPPER_LIMITE_TS || s > UPPER_LIMITE_TS {
            return None;
        }
        let ghost ows = self.windows();
        proof {
            assert(sec_of(s) <= BASE_TIME_BOUND) by (nonlinear_arith)
                requires
                    s <= UPPER_LIMITE_TS,
            ;
            assert(sec_of(e) <= BASE_TIME_BOUND) by (nonlinear_arith)
                requires
                    e <= UPPER_LIMITE_TS,
            ;
        }
        let wi: usize;
        match self.find_window(pid, tid) {
            Some(i) => {
                wi = i;
            },
            None => {
                let base_time = s / NANO_TO_SECONDS;
                let segments = create_initial_segments(base_time);
                let w = TimeSegments::new(pid, tid, thread_name.to_owned(), base_time, segments);
                wi = self.cpu_pid_events.len();
                proof {
                    assert(w@ == fresh_window(pid, tid, thread_name@, sec_of(s)));
                }
                self.cpu_pid_events.push(w);
                proof {
                    assert forall|m: int| 0 <= m < self.cpu_pid_events@.len() implies self.windows()[m]
                        == ows.push(w@)[m] by {
                        assert(self.windows()[m] == self.cpu_pid_events@[m]@);
                    }
                    assert(self.windows() =~= ows.push(w@));
                    lemma_fresh_window_ok(pid, tid, thread_name@, base_time);
                    assert forall|a: int, b: int|
                        0 <= a < self.windows().len() && 0 <= b < self.windows().len() && a
                            != b implies !(self.windows()[a].pid == self.windows()[b].pid
                        && self.windows()[a].tid == self.windows()[b].tid) by {
                        if a < ows.len() && b < ows.len() {
                        } else if a == ows.len() {
                            assert(!win_key(ows[b], pid, tid));
                        } else {
                            assert(!win_key(ows[a], pid, tid));
                        }
                    }
                    lemma_win_idx_agrees(self.windows(), pid, tid, wi as int);
                }
            },
        }
        let ghost grown = self.windows();
        let ghost w0 = grown[wi as int];
        proof {
            assert(self.cpu_pid_events@[wi as int].inv());
        }
        let is_cpu = match event.kind() {
            TimedEventKind::TimedCpuEventKind => true,
            _ => false,
        };
        let ro = rebase_window(&mut self.cpu_pid_events[wi], thread_name, s, e, is_cpu);
        proof {
            assert forall|m: int|
                0 <= m < self.cpu_pid_events@.len() && m != wi implies self.windows()[m]
                == grown[m] by {
                assert(self.windows()[m] == self.cpu_pid_events@[m]@);
            }
            let w1 = if is_cpu {
                WinView { latest_time: spec_max_time(w0.latest_time, e), ..w0 }
            } else {
                w0
            };
            let (w2, _) = put_transition(w1, thread_name@, s, e);
            assert(self.windows()[wi as int] == w2);
            assert(self.windows() =~= grown.update(wi as int, w2));
        }
        match ro {
            None => None,
            Some((a, b)) => Some((a, b, wi)),
        }
    }
}

/// Advances `latest_time` for CPU events, then applies the rebase step of
/// [`put_transition`] to one window in place.
fn rebase_window(w: &mut TimeSegments, thread_name: &str, s: u64, e: u64, is_cpu: bool) -> (r:
    Option<(i32, i32)>)
    requires
        old(w).inv(),
        s <= UPPER_LIMITE_TS,
        e <= UPPER_LIMITE_TS,
    ensures
        final(w).inv(),
        ({
            let w1 = if is_cpu {
                WinView { latest_time: spec_max_time(old(w)@.latest_time, e), ..old(w)@ }
            } else {
                old(w)@
            };
            let (w2, ro) = put_transition(w1, thread_name@, s, e);
            &&& final(w)@ == w2
            &&& match (r, ro) {
                (None, None) => true,
                (Some((a, b)), Some((a0, b0))) => a as int == a0 && b as int == b0 && b
                    < MAX_SEGMENT_SIZE as i32,
                _ => false,
            }
        }),
{
    proof {
        assert(sec_of(s) <= BASE_TIME_BOUND) by (nonlinear_arith)
            requires
                s <= UPPER_LIMITE_TS,
        ;
        assert(sec_of(e) <= BASE_TIME_BOUND) by (nonlinear_arith)
            requires
                e <= UPPER_LIMITE_TS,
        ;
    }
    if is_cpu {
        w.update_time(e);
    }
    let ghost w1 = (*w)@;
    let sec_e = e / NANO_TO_SECONDS;
    if sec_e < w.base_time {
        return None;
    }
    let sec_s = s / NANO_TO_SECONDS;
    let base = w.base_time;
    let so64: i64 = sec_s as i64 - base as i64;
    let eo64: i64 = sec_e as i64 - base as i64;
    let wide: i64 = MAX_SEGMENT_SIZE as i64;
    let half: i64 = HALF_SEGMENT_SIZE as i64;
    let mut start_offset: i64 = so64;
    let mut end_offset: i64 = eo64;
    let should_clear = start_offset >= wide || end_offset > wide;
    if should_clear {
        if 2 * start_offset >= 3 * wide {
            w.base_time = sec_s;
            end_offset = end_offset - start_offset;
            start_offset = 0;
            w.segments = create_initial_segments(w.base_time);
        } else if end_offset > wide {
            w.base_time = sec_e - (HALF_SEGMENT_SIZE as u64);
            start_offset = sec_s as i64 - w.base_time as i64;
            end_offset = half;
            w.segments = create_initial_segments(w.base_time);
        } else {
            let clear_size = HALF_SEGMENT_SIZE;
            let ghost segs0 = w.segments@;
            let ghost nb = (w1.base_time + HALF_SEGMENT_SIZE) as u64;
            w.base_time = w.base_time + clear_size as u64;
            if start_offset < clear_size as i64 {
                start_offset = 0;
            } else {
                start_offset = start_offset - clear_size as i64;
            }
            end_offset = end_offset - clear_size as i64;
            let mut i: usize = 0;
            while i < clear_size
                invariant
                    i <= clear_size,
                    clear_size == HALF_SEGMENT_SIZE,
                    w.segments.wf(),
                    w.segments.spec_length() == MAX_SEGMENT_SIZE,
                    w.segments@.len() == MAX_SEGMENT_SIZE,
                    w.base_time == nb,
                    nb <= BASE_TIME_BOUND,
                    w.pid == w1.pid,
                    w.tid == w1.tid,
                    w.thread_name@ == w1.thread_name,
                    w.latest_time == w1.latest_time,
                    segs0.len() == MAX_SEGMENT_SIZE,
                    forall|m: int|
                        0 <= m < i ==> #[trigger] w.segments@[m] == segs0[m + HALF_SEGMENT_SIZE],
                    forall|m: int|
                        0 <= m < i ==> #[trigger] w.segments@[m + HALF_SEGMENT_SIZE] == fresh_seg(
                            nb + m + HALF_SEGMENT_SIZE,
                        ),
                    forall|m: int|
                        i <= m < HALF_SEGMENT_SIZE ==> #[trigger] w.segments@[m] == segs0[m],
                    forall|m: int|
                        HALF_SEGMENT_SIZE + i <= m < MAX_SEGMENT_SIZE ==> #[trigger] w.segments@[m]
                            == segs0[m],
                decreases clear_size - i,
            {
                let moved_index = i + clear_size;
                w.segments.update_by_moved_index(i, moved_index);
                let seg_tmp = Segment::new(
                    (w.base_time + (moved_index as u64)) * NANO_TO_SECONDS,
                    (w.base_time + ((moved_index as u64) + 1)) * NANO_TO_SECONDS,
                );
                w.segments.update_by_index(moved_index, seg_tmp);
                i = i + 1;
            }
            proof {
                assert(segs0 == w1.segments);
                let target = Seq::new(
                    MAX_SEGMENT_SIZE as nat,
                    |m: int|
                        if m < HALF_SEGMENT_SIZE as int {
                            w1.segments[m + HALF_SEGMENT_SIZE]
                        } else {
                            fresh_seg(nb + m)
                        },
                );
                assert forall|m: int| 0 <= m < MAX_SEGMENT_SIZE implies w.segments@[m]
                    == target[m] by {
                    if m >= HALF_SEGMENT_SIZE as int {
                        assert(w.segments@[(m - HALF_SEGMENT_SIZE) + HALF_SEGMENT_SIZE]
                            == fresh_seg(nb + (m - HALF_SEGMENT_SIZE) + HALF_SEGMENT_SIZE));
                    }
                }
                assert(w.segments@ =~= target);
            }
        }
    }
    w.update_thread_name(thread_name);
    if end_offset > wide - 1 {
        end_offset = wide - 1;
    }
    proof {
        let (w2, ro) = put_transition(w1, thread_name@, s, e);
        assert((*w)@.segments =~= w2.segments);
        assert((*w)@ =~= w2);
        assert(ro == Some((start_offset as int, end_offset as int)));
    }
    let r_start = start_offset as i32;
    let r_end = end_offset as i32;
    Some((r_start, r_end))
}

pub open spec fn spec_max(a: int, b: int) -> int {
    if a > b {
        a
    } else {
        b
    }
}

/// Lookup, creation, latest-time update and rebase, as one step: the
/// window table with the window present, its position, the window after
/// the rebase, and the offsets to stamp.
pub open spec fn put_outcome(
    ows: Seq<WinView>,
    pid: u32,
    tid: u32,
    tname: Seq<char>,
    s: u64,
    e: u64,
    k: TimedEventKind,
) -> (Seq<WinView>, int, WinView, Option<(int, int)>) {
    let had = has_win(ows, pid, tid);
    let wi = if had {
        win_idx(ows, pid, tid)
    } else {
        ows.len() as int
    };
    let w0 = if had {
        ows[wi]
    } else {
        fresh_window(pid, tid, tname, sec_of(s))
    };
    let grown = if had {
        ows
    } else {
        ows.push(w0)
    };
    let w1 = if k == TimedEventKind::TimedCpuEventKind {
        WinView { latest_time: spec_max_time(w0.latest_time, e), ..w0 }
    } else {
        w0
    };
    let (w2, ro) = put_transition(w1, tname, s, e);
    (grown, wi, w2, ro)
}

/// One bucket after an event lands in it: the event appended, the bucket
/// marked dirty again.
pub open spec fn stamp_cpu_seg(s: SegmentView, ev: CpuEventView) -> SegmentView {
    SegmentView { cpu_events: s.cpu_events.push(ev), is_send: 0, ..s }
}

pub open spec fn stamp_futex_seg(
    s: SegmentView,
    ev: crate::segment::JavaFutexEventView,
) -> SegmentView {
    SegmentView { java_futex_event: s.java_futex_event.push(ev), is_send: 0, ..s }
}

pub open spec fn stamp_txn_seg(
    s: SegmentView,
    ev: crate::segment::TransactionIdEventView,
) -> SegmentView {
    SegmentView { transaction_id_event: s.transaction_id_event.push(ev), is_send: 0, ..s }
}

/// The window after an event was stamped into buckets `lo ..= hi`.
pub open spec fn stamp_cpu_win(w: WinView, ev: CpuEventView, lo: int, hi: int) -> WinView {
    WinView {
        segments: Seq::new(
            w.segments.len(),
            |b: int|
                if lo <= b <= hi {
                    stamp_cpu_seg(w.segments[b], ev)
                } else {
                    w.segments[b]
                },
        ),
        ..w
    }
}

pub open spec fn stamp_futex_win(
    w: WinView,
    ev: crate::segment::JavaFutexEventView,
    lo: int,
    hi: int,
) -> WinView {
    WinView {
        segments: Seq::new(
            w.segments.len(),
            |b: int|
                if lo <= b <= hi {
                    stamp_futex_seg(w.segments[b], ev)
                } else {
                    w.segments[b]
                },
        ),
        ..w
    }
}

pub open spec fn stamp_txn_win(
    w: WinView,
    ev: crate::segment::TransactionIdEventView,
    lo: int,
    hi: int,
) -> WinView {
    WinView {
        segments: Seq::new(
            w.segments.len(),
            |b: int|
                if lo <= b <= hi {
                    stamp_txn_seg(w.segments[b], ev)
                } else {
                    w.segments[b]
                },
        ),
        ..w
    }
}

/// The bucket range actually written for put offsets `(a, b)`: indices
/// below zero are skipped and the end bucket is always written, so the
/// range is `[min(max(a, 0), b), b]`, empty when `b` is negative.
pub open spec fn stamp_lo(a: int, b: int) -> int {
    spec_min(spec_max(a, 0), b)
}

/// Full description of `ingest_cpu_event`: clock-garbage, too-old and
/// malformed events leave the store unchanged; any other event lands in
/// exactly the buckets its time range spans, after the window rebases.
pub open spec fn ingest_cpu_post(
    ows: Seq<WinView>,
    nws: Seq<WinView>,
    pid: u32,
    tid: u32,
    tname: Seq<char>,
    ev: CpuEventView,
) -> bool {
    if ev.start_time < LOWER_LIMITE_TS || !cpu_event_wf(ev) || ev.start_time > UPPER_LIMITE_TS
        || ev.end_time > UPPER_LIMITE_TS {
        nws == ows
    } else {
        let (grown, wi, w2, ro) = put_outcome(
            ows,
            pid,
            tid,
            tname,
            ev.start_time,
            ev.end_time,
            TimedEventKind::TimedCpuEventKind,
        );
        match ro {
            None => nws == grown.update(wi, w2),
            Some((a, b)) => nws == grown.update(
                wi,
                if b < 0 {
                    w2
                } else {
                    stamp_cpu_win(w2, ev, stamp_lo(a, b), b)
                },
            ),
        }
    }
}

impl CpuAnalyzer {
    /// Stores one decoded CPU interval event for (pid, tid).
    pub fn ingest_cpu_event(&mut self, pid: u32, tid: u32, thread_name: &str, ev: CpuEvent)
        requires
            old(self).wf(),
        ensures
            final(self).wf(),
            ingest_cpu_post(
                old(self).windows(),
                final(self).windows(),
                pid,
                tid,
                thread_name@,
                ev@,
            ),
            final(self).tid_exit_queue@ == old(self).tid_exit_queue@,
            final(self).metric_signals@ == old(self).metric_signals@,
    {
        if ev.start_time < LOWER_LIMITE_TS {
            return ;
        }
        if !check_cpu_event_wf(&ev) {
            return ;
        }
        let ghost ows = self.windows();
        let r = self.put_event_to_segments(pid, tid, thread_name, &ev);
        match r {
            None => {},
            Some((start, end, wi)) => {
                if end >= 0 {
                    let mut lo: i32 = if start < 0 {
                        0
                    } else {
                        start
                    };
                    if lo > end {
                        lo = end;
                    }
                    let ghost mid = self.windows();
                    let ghost w2 = mid[wi as int];
                    stamp_cpu_range(&mut self.cpu_pid_events[wi], &ev, lo, end);
                    proof {
                        assert forall|m: int|
                            0 <= m < self.cpu_pid_events@.len() && m != wi implies self.windows()[m]
                            == mid[m] by {
                            assert(self.windows()[m] == self.cpu_pid_events@[m]@);
                        }
                        assert(self.windows()[wi as int] == stamp_cpu_win(
                            w2,
                            ev@,
                            lo as int,
                            end as int,
                        ));
                        assert(self.windows() =~= mid.update(
                            wi as int,
                            stamp_cpu_win(w2, ev@, lo as int, end as int),
                        ));
                        let (grown, swi, sw2, ro) = put_outcome(
                            ows,
                            pid,
                            tid,
                            thread_name@,
                            ev@.start_time,
                            ev@.end_time,
                            TimedEventKind::TimedCpuEventKind,
                        );
                        assert(mid == grown.update(swi, sw2));
                        assert(mid.update(wi as int, stamp_cpu_win(w2, ev@, lo as int, end as int))
                            =~= grown.update(
                            swi,
                            stamp_cpu_win(sw2, ev@, stamp_lo(start as int, end as int), end as int),
                        ));
                    }
                }
            },
        }
    }

    /// Stores one Java futex wait event for (pid, tid).
    pub fn ingest_java_futex_event(
        &mut self,
        pid: u32,
        tid: u32,
        thread_name: &str,
        ev: JavaFutexEvent,
    )
        requires
            old(self).wf(),
        ensures
            final(self).wf(),
            final(self).tid_exit_queue@ == old(self).tid_exit_queue@,
            final(self).metric_signals@ == old(self).metric_signals@,
            ({
                let ows = old(self).windows();
                let nws = final(self).windows();
                if ev@.start_time < LOWER_LIMITE_TS || ev@.start_time > UPPER_LIMITE_TS
                    || ev@.end_time > UPPER_LIMITE_TS {
                    nws == ows
                } else {
                    let (grown, wi, w2, ro) = put_outcome(
                        ows,
                        pid,
                        tid,
                        thread_name@,
                        ev@.start_time,
                        ev@.end_time,
                        TimedEventKind::TimedJavaFutexEventKind,
                    );
                    match ro {
                        None => nws == grown.update(wi, w2),
                        Some((a, b)) => nws == grown.update(
                            wi,
                            if b < 0 {
                                w2
                            } else {
                                stamp_futex_win(w2, ev@, stamp_lo(a, b), b)
                            },
                        ),
                    }
                }
            }),
    {
        if ev.start_time < LOWER_LIMITE_TS {
            return ;
        }
        let ghost ows = self.windows();
        let r = self.put_event_to_segments(pid, tid, thread_name, &ev);
        match r {
            None => {},
            Some((start, end, wi)) => {
                if end >= 0 {
                    let mut lo: i32 = if start < 0 {
                        0
                    } else {
                        start
                    };
                    if lo > end {
                        lo = end;
                    }
                    let ghost mid = self.windows();
                    let ghost w2 = mid[wi as int];
                    stamp_futex_range(&mut self.cpu_pid_events[wi], &ev, lo, end);
                    proof {
                        assert forall|m: int|
                            0 <= m < self.cpu_pid_events@.len() && m != wi implies self.windows()[m]
                            == mid[m] by {
                            assert(self.windows()[m] == self.cpu_pid_events@[m]@);
                        }
                        assert(self.windows() =~= mid.update(
                            wi as int,
                            stamp_futex_win(w2, ev@, lo as int, end as int),
                        ));
                        let (grown, swi, sw2, ro) = put_outcome(
                            ows,
                            pid,
                            tid,
                            thread_name@,
                            ev@.start_time,
                            ev@.end_time,
                            TimedEventKind::TimedJavaFutexEventKind,
                        );
                        assert(mid.update(
                            wi as int,
                            stamp_futex_win(w2, ev@, lo as int, end as int),
                        ) =~= grown.update(
                            swi,
                            stamp_futex_win(
                                sw2,
                                ev@,
                                stamp_lo(start as int, end as int),
                                end as int,
                            ),
                        ));
                    }
                }
            },
        }
    }

    /// Stores one transaction-id point event for (pid, tid).
    pub fn ingest_transaction_id_event(
        &mut self,
        pid: u32,
        tid: u32,
        thread_name: &str,
        ev: TransactionIdEvent,
    )
        requires
            old(self).wf(),
        ensures
            final(self).wf(),
            final(self).tid_exit_queue@ == old(self).tid_exit_queue@,
            final(self).metric_signals@ == old(self).metric_signals@,
            ({
                let ows = old(self).windows();
                let nws = final(self).windows();
                if ev@.timestamp < LOWER_LIMITE_TS || ev@.timestamp > UPPER_LIMITE_TS {
                    nws == ows
                } else {
                    let (grown, wi, w2, ro) = put_outcome(
                        ows,
                        pid,
                        tid,
                        thread_name@,
                        ev@.timestamp,
                        ev@.timestamp,
                        TimedEventKind::TimedTransactionIdEventKind,
                    );
                    match ro {
                        None => nws == grown.update(wi, w2),
                        Some((a, b)) => nws == grown.update(
                            wi,
                            if b < 0 {
                                w2
                            } else {
                                stamp_txn_win(w2, ev@, stamp_lo(a, b), b)
                            },
                        ),
                    }
                }
            }),
    {
        if ev.timestamp < LOWER_LIMITE_TS {
            return ;
        }
        let ghost ows = self.windows();
        let r = self.put_event_to_segments(pid, tid, thread_name, &ev);
        match r {
            None => {},
            Some((start, end, wi)) => {
                if end >= 0 {
                    let mut lo: i32 = if start < 0 {
                        0
                    } else {
                        start
                    };
                    if lo > end {
                        lo = end;
                    }
                    let ghost mid = self.windows();
                    let ghost w2 = mid[wi as int];
                    stamp_txn_range(&mut self.cpu_pid_events[wi], &ev, lo, end);
                    proof {
                        assert forall|m: int|
                            0 <= m < self.cpu_pid_events@.len() && m != wi implies self.windows()[m]
                            == mid[m] by {
                            assert(self.windows()[m] == self.cpu_pid_events@[m]@);
                        }
                        assert(self.windows() =~= mid.update(
                            wi as int,
                            stamp_txn_win(w2, ev@, lo as int, end as int),
                        ));
                        let (grown, swi, sw2, ro) = put_outcome(
                            ows,
                            pid,
                            tid,
                            thread_name@,
                            ev@.timestamp,
                            ev@.timestamp,
                            TimedEventKind::TimedTransactionIdEventKind,
                        );
                        assert(mid.update(wi as int, stamp_txn_win(w2, ev@, lo as int, end as int))
                            =~= grown.update(
                            swi,
                            stamp_txn_win(sw2, ev@, stamp_lo(start as int, end as int), end as int),
                        ));
                    }
                }
            },
        }
    }
}

/// The window table with the (pid, tid) window taken out, if present.
pub open spec fn remove_win_seq(ws: Seq<WinView>, pid: u32, tid: u32) -> Seq<WinView> {
    if has_win(ws, pid, tid) {
        ws.remove(win_idx(ws, pid, tid))
    } else {
        ws
    }
}

/// Drains the exit FIFO in order, evicting each expired entry's window,
/// and stops at the first entry still inside the grace period.
pub open spec fn tid_delete_spec(ws: Seq<WinView>, q: Seq<DeleteTid>, cutoff: u64) -> (
    Seq<WinView>,
    Seq<DeleteTid>,
)
    decreases q.len(),
{
    if q.len() == 0 {
        (ws, q)
    } else if q[0].exit_time > cutoff {
        (ws, q)
    } else {
        tid_delete_spec(remove_win_seq(ws, q[0].pid, q[0].tid), q.skip(1), cutoff)
    }
}

impl CpuAnalyzer {
    /// Records a thread exit at the current wall time; the window itself
    /// is evicted later, once the grace period has passed.
    pub fn trim_exited_thread(&mut self, pid: u32, tid: u32)
        requires
            old(self).wf(),
        ensures
            final(self).wf(),
            final(self).windows() == old(self).windows(),
            final(self).metric_signals@ == old(self).metric_signals@,
            final(self).tid_exit_queue@.len() == old(self).tid_exit_queue@.len() + 1,
            forall|m: int|
                0 <= m < old(self).tid_exit_queue@.len() ==> final(self).tid_exit_queue@[m]
                    == old(self).tid_exit_queue@[m],
            final(self).tid_exit_queue@.last().pid == pid,
            final(self).tid_exit_queue@.last().tid == tid,
    {
        let exit_time = crate::clock::now_unix_ns();
        self.tid_exit_queue.push(DeleteTid { pid, tid, exit_time });
    }

    /// Removes the (pid, tid) window, if one exists.
    fn remove_window(&mut self, pid: u32, tid: u32)
        requires
            old(self).wf(),
        ensures
            final(self).wf(),
            final(self).windows() == remove_win_seq(old(self).windows(), pid, tid),
            final(self).tid_exit_queue@ == old(self).tid_exit_queue@,
            final(self).metric_signals@ == old(self).metric_signals@,
    {
        let ghost ows = self.windows();
        match self.find_window(pid, tid) {
            None => {},
            Some(i) => {
                self.cpu_pid_events.remove(i);
                proof {
                    assert forall|m: int|
                        0 <= m < self.cpu_pid_events@.len() implies self.windows()[m] == ows.remove(
                        i as int,
                    )[m] by {
                        assert(self.windows()[m] == self.cpu_pid_events@[m]@);
                        if m < i {
                            assert(self.cpu_pid_events@[m] == old(self).cpu_pid_events@[m]);
                        } else {
                            assert(self.cpu_pid_events@[m] == old(self).cpu_pid_events@[m + 1]);
                        }
                    }
                    assert(self.windows() =~= ows.remove(i as int));
                    assert forall|a: int, b: int|
                        0 <= a < self.windows().len() && 0 <= b < self.windows().len() && a
                            != b implies !(self.windows()[a].pid == self.windows()[b].pid
                        && self.windows()[a].tid == self.windows()[b].tid) by {
                        let a0 = if a < i {
                            a
                        } else {
                            a + 1
                        };
                        let b0 = if b < i {
                            b
                        } else {
                            b + 1
                        };
                        assert(!(ows[a0].pid == ows[b0].pid && ows[a0].tid == ows[b0].tid));
                    }
                    assert forall|m: int|
                        0 <= m < self.cpu_pid_events@.len() implies (
                    #[trigger] self.cpu_pid_events@[m]).inv() by {
                        if m < i {
                            assert(old(self).cpu_pid_events@[m].inv());
                        } else {
                            assert(old(self).cpu_pid_events@[m + 1].inv());
                        }
                    }
                }
            },
        }
    }

    /// Evicts the windows of threads whose exit is older than the grace
    /// period, strictly in exit order, stopping at the first entry still
    /// inside it.  `now_ns` is the sweep's wall time; `expired_ns` the
    /// grace period.
    pub fn tid_delete_at(&mut self, now_ns: u64, expired_ns: u64)
        requires
            old(self).wf(),
        ensures
            final(self).wf(),
            final(self).metric_signals@ == old(self).metric_signals@,
            expired_ns > now_ns ==> final(self).windows() == old(self).windows()
                && final(self).tid_exit_queue@ == old(self).tid_exit_queue@,
            expired_ns <= now_ns ==> (final(self).windows(), final(self).tid_exit_queue@)
                == tid_delete_spec(
                old(self).windows(),
                old(self).tid_exit_queue@,
                (now_ns - expired_ns) as u64,
            ),
    {
        if expired_ns > now_ns {
            return ;
        }
        let cutoff = now_ns - expired_ns;
        let ghost target = tid_delete_spec(
            old(self).windows(),
            old(self).tid_exit_queue@,
            cutoff,
        );
        loop
            invariant
                self.wf(),
                self.metric_signals@ == old(self).metric_signals@,
                tid_delete_spec(self.windows(), self.tid_exit_queue@, cutoff) == target,
            ensures
                self.wf(),
                self.metric_signals@ == old(self).metric_signals@,
                tid_delete_spec(self.windows(), self.tid_exit_queue@, cutoff) == target,
                self.tid_exit_queue@.len() == 0 || self.tid_exit_queue@[0].exit_time > cutoff,
            decreases self.tid_exit_queue@.len(),
        {
            if self.tid_exit_queue.len() == 0 {
                break ;
            }
            let elem = self.tid_exit_queue[0];
            if elem.exit_time > cutoff {
                break ;
            }
            let ghost ws0 = self.windows();
            let ghost q0 = self.tid_exit_queue@;
            self.remove_window(elem.pid, elem.tid);
            self.tid_exit_queue.remove(0);
            proof {
                assert(self.tid_exit_queue@ =~= q0.skip(1));
                assert(tid_delete_spec(ws0, q0, cutoff) == tid_delete_spec(
                    self.windows(),
                    self.tid_exit_queue@,
                    cutoff,
                ));
            }
        }
        proof {
            assert(tid_delete_spec(self.windows(), self.tid_exit_queue@, cutoff) == (
                self.windows(),
                self.tid_exit_queue@,
            ));
        }
    }

    /// Reads the clock and runs the eviction sweep against it: whatever
    /// time the clock returned, the windows and the exit FIFO together
    /// are exactly [`tid_delete_spec`] at that time's cutoff (or, when
    /// the grace period reaches past the epoch, untouched);
    /// `tid_delete_at` pins the effect for a known time.
    pub fn tid_delete(&mut self, expired_ns: u64)
        requires
            old(self).wf(),
        ensures
            final(self).wf(),
            final(self).metric_signals@ == old(self).metric_signals@,
            exists|now_ns: u64|
                #[trigger] tid_sweep_post(
                    old(self).windows(),
                    old(self).tid_exit_queue@,
                    final(self).windows(),
                    final(self).tid_exit_queue@,
                    expired_ns,
                    now_ns,
                ),
    {
        let now_ns = crate::clock::now_unix_ns();
        self.tid_delete_at(now_ns, expired_ns);
        proof {
            assert(tid_sweep_post(
                old(self).windows(),
                old(self).tid_exit_queue@,
                self.windows(),
                self.tid_exit_queue@,
                expired_ns,
                now_ns,
            ));
        }
    }
}

/// What one clock-driven eviction sweep does for the time it observed:
/// nothing when the grace period reaches past the epoch, otherwise
/// exactly the drain that [`tid_delete_spec`] gives at the cutoff.
pub open spec fn tid_sweep_post(
    ows: Seq<WinView>,
    oq: Seq<DeleteTid>,
    nws: Seq<WinView>,
    nq: Seq<DeleteTid>,
    expired_ns: u64,
    now_ns: u64,
) -> bool {
    if expired_ns > now_ns {
        nws == ows && nq == oq
    } else {
        (nws, nq) == tid_delete_spec(ows, oq, (now_ns - expired_ns) as u64)
    }
}

/// Appends the event to every bucket in `lo ..= hi` and marks them dirty.
fn stamp_cpu_range(w: &mut TimeSegments, ev: &CpuEvent, lo: i32, hi: i32)
    requires
        old(w).inv(),
        cpu_event_wf(ev@),
        0 <= lo <= hi < MAX_SEGMENT_SIZE as i32,
    ensures
        final(w).inv(),
        final(w)@ == stamp_cpu_win(old(w)@, ev@, lo as int, hi as int),
{
    let ghost w0 = (*w)@;
    let mut i: i32 = lo;
    while i <= hi
        invariant
            lo <= i <= hi + 1,
            0 <= lo <= hi < MAX_SEGMENT_SIZE as i32,
            w.segments.wf(),
            w.segments.spec_length() == MAX_SEGMENT_SIZE,
            w.segments@.len() == MAX_SEGMENT_SIZE,
            w.pid == w0.pid,
            w.tid == w0.tid,
            w.thread_name@ == w0.thread_name,
            w.base_time == w0.base_time,
            w.latest_time == w0.latest_time,
            w0.segments.len() == MAX_SEGMENT_SIZE,
            forall|b: int|
                0 <= b < MAX_SEGMENT_SIZE && !(lo <= b < i) ==> #[trigger] w.segments@[b]
                    == w0.segments[b],
            forall|b: int|
                lo <= b < i ==> #[trigger] w.segments@[b] == stamp_cpu_seg(w0.segments[b], ev@),
        decreases hi + 1 - i,
    {
        let seg = w.segments.get_by_index_mut(i as usize);
        seg.put_cpu_event(ev.clone());
        seg.mark_unsent();
        i = i + 1;
    }
    proof {
        assert((*w)@.segments =~= stamp_cpu_win(w0, ev@, lo as int, hi as int).segments);
        assert((*w)@ =~= stamp_cpu_win(w0, ev@, lo as int, hi as int));
        lemma_stamp_keeps_win_ok(w0, (*w)@);
    }
}

fn stamp_futex_range(w: &mut TimeSegments, ev: &JavaFutexEvent, lo: i32, hi: i32)
    requires
        old(w).inv(),
        0 <= lo <= hi < MAX_SEGMENT_SIZE as i32,
    ensures
        final(w).inv(),
        final(w)@ == stamp_futex_win(old(w)@, ev@, lo as int, hi as int),
{
    let ghost w0 = (*w)@;
    let mut i: i32 = lo;
    while i <= hi
        invariant
            lo <= i <= hi + 1,
            0 <= lo <= hi < MAX_SEGMENT_SIZE as i32,
            w.segments.wf(),
            w.segments.spec_length() == MAX_SEGMENT_SIZE,
            w.segments@.len() == MAX_SEGMENT_SIZE,
            w.pid == w0.pid,
            w.tid == w0.tid,
            w.thread_name@ == w0.thread_name,
            w.base_time == w0.base_time,
            w.latest_time == w0.latest_time,
            w0.segments.len() == MAX_SEGMENT_SIZE,
            forall|b: int|
                0 <= b < MAX_SEGMENT_SIZE && !(lo <= b < i) ==> #[trigger] w.segments@[b]
                    == w0.segments[b],
            forall|b: int|
                lo <= b < i ==> #[trigger] w.segments@[b] == stamp_futex_seg(w0.segments[b], ev@),
        decreases hi + 1 - i,
    {
        let seg = w.segments.get_by_index_mut(i as usize);
        seg.put_java_futex_event(ev.clone());
        seg.mark_unsent();
        i = i + 1;
    }
    proof {
        assert((*w)@.segments =~= stamp_futex_win(w0, ev@, lo as int, hi as int).segments);
        assert((*w)@ =~= stamp_futex_win(w0, ev@, lo as int, hi as int));
        lemma_stamp_keeps_win_ok(w0, (*w)@);
    }
}

fn stamp_txn_range(w: &mut TimeSegments, ev: &TransactionIdEvent, lo: i32, hi: i32)
    requires
        old(w).inv(),
        0 <= lo <= hi < MAX_SEGMENT_SIZE as i32,
    ensures
        final(w).inv(),
        final(w)@ == stamp_txn_win(old(w)@, ev@, lo as int, hi as int),
{
    let ghost w0 = (*w)@;
    let mut i: i32 = lo;
    while i <= hi
        invariant
            lo <= i <= hi + 1,
            0 <= lo <= hi < MAX_SEGMENT_SIZE as i32,
            w.segments.wf(),
            w.segments.spec_length() == MAX_SEGMENT_SIZE,
            w.segments@.len() == MAX_SEGMENT_SIZE,
            w.pid == w0.pid,
            w.tid == w0.tid,
            w.thread_name@ == w0.thread_name,
            w.base_time == w0.base_time,
            w.latest_time == w0.latest_time,
            w0.segments.len() == MAX_SEGMENT_SIZE,
            forall|b: int|
                0 <= b < MAX_SEGMENT_SIZE && !(lo <= b < i) ==> #[trigger] w.segments@[b]
                    == w0.segments[b],
            forall|b: int|
                lo <= b < i ==> #[trigger] w.segments@[b] == stamp_txn_seg(w0.segments[b], ev@),
        decreases hi + 1 - i,
    {
        let seg = w.segments.get_by_index_mut(i as usize);
        seg.put_transaction_id_event(ev.clone());
        seg.mark_unsent();
        i = i + 1;
    }
    proof {
        assert((*w)@.segments =~= stamp_txn_win(w0, ev@, lo as int, hi as int).segments);
        assert((*w)@ =~= stamp_txn_win(w0, ev@, lo as int, hi as int));
        lemma_stamp_keeps_win_ok(w0, (*w)@);
    }
}

/// Stamping changes only event lists and dirty flags, so the shape
/// invariant survives.
pub proof fn lemma_stamp_keeps_win_ok(w0: WinView, w1: WinView)
    requires
        win_ok(w0),
        w1.base_time == w0.base_time,
        w1.segments.len() == w0.segments.len(),
        forall|b: int|
            0 <= b < w0.segments.len() ==> {
                let s0 = #[trigger] w0.segments[b];
                let s1 = w1.segments[b];
                s1.start_time == s0.start_time && s1.end_time == s0.end_time && (s1.cpu_events
                    == s0.cpu_events || exists|ev: CpuEventView|
                    cpu_event_wf(ev) && s1.cpu_events == s0.cpu_events.push(ev))
            },
    ensures
        win_ok(w1),
{
    assert forall|i: int| 0 <= i < MAX_SEGMENT_SIZE implies seg_at(
        #[trigger] w1.segments[i],
        w1.base_time + i,
    ) by {
        assert(seg_at(w0.segments[i], w0.base_time + i));
    }
    assert forall|i: int, k: int|
        0 <= i < MAX_SEGMENT_SIZE && 0 <= k < w1.segments[i].cpu_events.len() implies cpu_event_wf(
        #[trigger] w1.segments[i].cpu_events[k],
    ) by {
        let s0 = w0.segments[i];
        let s1 = w1.segments[i];
        if s1.cpu_events == s0.cpu_events {
            assert(cpu_event_wf(s0.cpu_events[k]));
        } else {
            let ev = choose|ev: CpuEventView|
                cpu_event_wf(ev) && s1.cpu_events == s0.cpu_events.push(ev);
            if k < s0.cpu_events.len() {
                assert(cpu_event_wf(s0.cpu_events[k]));
            }
        }
    }
}

/// Relies on `String::push`: appends the one character to the string.
#[verifier::external_body]
fn string_push_char(s: &mut String, c: char)
    ensures
        final(s)@ == old(s)@.push(c),
{
    s.push(c);
}

/// Each byte read as the character with the same code point.
pub open spec fn byte_chars(bytes: Seq<u8>) -> Seq<char> {
    Seq::new(bytes.len(), |i: int| bytes[i] as char)
}

/// Little-endian 64-bit words packed back to back; a trailing fragment is
/// ignored.
pub fn read_u64_values(val: &[u8]) -> (r: Vec<u64>)
    ensures
        r@.len() == val@.len() / 8,
        forall|i: int|
            0 <= i < r@.len() ==> #[trigger] r@[i] == vstd::bytes::spec_u64_from_le_bytes(
                val@.subrange(8 * i, 8 * i + 8),
            ),
{
    let total = val.len();
    let count = total / 8;
    let mut values: Vec<u64> = Vec::new();
    let mut i: usize = 0;
    let mut off: usize = 0;
    while i < count
        invariant
            i <= count,
            off == 8 * i,
            total == val@.len(),
            count == val@.len() / 8,
            values@.len() == i,
            forall|m: int|
                0 <= m < i ==> #[trigger] values@[m] == vstd::bytes::spec_u64_from_le_bytes(
                    val@.subrange(8 * m, 8 * m + 8),
                ),
        decreases count - i,
    {
        proof {
            assert(8 * (i as int) + 8 <= val@.len()) by (nonlinear_arith)
                requires
                    i < count,
                    count == val@.len() / 8,
            ;
            assert(off + 8 <= total);
        }
        let chunk = vstd::slice::slice_subrange(val, off, off + 8);
        values.push(vstd::bytes::u64_from_le_bytes(chunk));
        i = i + 1;
        off = off + 8;
    }
    values
}

/// The raw byte payload, copied.
pub fn read_u8_values(val: &[u8]) -> (r: Vec<u8>)
    ensures
        r@ == val@,
{
    vstd::slice::slice_to_vec(val)
}

/// A byte payload read character by character, one character per byte, as
/// the probe encodes its plain-text fields; an absent payload is empty
/// text.
pub fn read_string_value(val: Option<&[u8]>) -> (r: String)
    ensures
        val matches Some(bytes) ==> r@ == byte_chars(bytes@),
        val is None ==> r@.len() == 0,
{
    match val {
        Some(bytes) => {
            let mut string = String::new();
            let mut i: usize = 0;
            while i < bytes.len()
                invariant
                    i <= bytes@.len(),
                    string@ == byte_chars(bytes@).take(i as int),
                decreases bytes@.len() - i,
            {
                let b = *vstd::slice::slice_index_get(bytes, i);
                string_push_char(&mut string, b as char);
                proof {
                    assert(string@ =~= byte_chars(bytes@).take(i + 1));
                }
                i = i + 1;
            }
            proof {
                assert(string@ =~= byte_chars(bytes@));
            }
            string
        },
        None => String::new(),
    }
}

/// A freshly created window satisfies the shape invariant.
pub proof fn lemma_fresh_window_ok(pid: u32, tid: u32, tname: Seq<char>, base: u64)
    requires
        base <= BASE_TIME_BOUND,
    ensures
        win_ok(fresh_window(pid, tid, tname, base)),
{
    let w = fresh_window(pid, tid, tname, base);
    assert forall|i: int| 0 <= i < MAX_SEGMENT_SIZE implies seg_at(
        #[trigger] w.segments[i],
        w.base_time + i,
    ) by {
        assert(w.segments[i] == fresh_seg(base + i));
    }
}

} // verus!
