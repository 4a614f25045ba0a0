//! Range-aggregation over a thread's stored CPU events.
//!
//! A query for `[start, end]` walks the buckets the range touches,
//! collects their CPU events while skipping duplicates of events that
//! span bucket boundaries, narrows the list to the events that can
//! intersect the range, and sums each event's sub-intervals clipped to
//! the range, split by CPU-time category, with run-queue latency taken
//! out of the raw on/off duration.

use vstd::prelude::*;

use crate::cpu_analyzer::{sec_of, win_idx, win_key, CpuAnalyzer, TimeSegments, WinView};
use crate::segment::{
    cpu_event_wf, CpuEvent, CpuEventView, SegmentView, CPUTYPE_MAX, MAX_SEGMENT_SIZE,
    NANO_TO_SECONDS,
};

verus! {

#[derive(Debug, Clone, Copy, PartialEq, Eq, Structural)]
pub enum CpuTimeType {
    OnCpu,
    File,
    Net,
    Futex,
    Idle,
    Other,
    Epoll,
    Max,
}

impl CpuTimeType {
    pub fn from_usize(value: usize) -> (r: Option<Self>)
        ensures
            value == 0 ==> r == Some(CpuTimeType::OnCpu),
            value == 1 ==> r == Some(CpuTimeType::File),
            value == 2 ==> r == Some(CpuTimeType::Net),
            value == 3 ==> r == Some(CpuTimeType::Futex),
            value == 4 ==> r == Some(CpuTimeType::Idle),
            value == 5 ==> r == Some(CpuTimeType::Other),
            value == 6 ==> r == Some(CpuTimeType::Epoll),
            value >= 7 ==> r is None,
    {
        match value {
            0 => Some(CpuTimeType::OnCpu),
            1 => Some(CpuTimeType::File),
            2 => Some(CpuTimeType::Net),
            3 => Some(CpuTimeType::Futex),
            4 => Some(CpuTimeType::Idle),
            5 => Some(CpuTimeType::Other),
            6 => Some(CpuTimeType::Epoll),
            _ => None,
        }
    }
}

/// Which of the two per-category metric families a name is asked for.
#[derive(Debug, Clone, Copy, PartialEq, Eq, Structural)]
pub enum MetricSuffix {
    Duration,
    Count,
}

pub open spec fn metric_name_spec(t: CpuTimeType, s: MetricSuffix) -> Seq<char> {
    match (t, s) {
        (CpuTimeType::OnCpu, MetricSuffix::Duration) => "kindling_profiling_cpu_duration_nanoseconds"@,
        (CpuTimeType::OnCpu, MetricSuffix::Count) => "kindling_profiling_cpu_count"@,
        (CpuTimeType::File, MetricSuffix::Duration) => "kindling_profiling_file_duration_nanoseconds"@,
        (CpuTimeType::File, MetricSuffix::Count) => "kindling_profiling_file_count"@,
        (CpuTimeType::Net, MetricSuffix::Duration) => "kindling_profiling_net_duration_nanoseconds"@,
        (CpuTimeType::Net, MetricSuffix::Count) => "kindling_profiling_net_count"@,
        (CpuTimeType::Futex, MetricSuffix::Duration) => "kindling_profiling_futex_duration_nanoseconds"@,
        (CpuTimeType::Futex, MetricSuffix::Count) => "kindling_profiling_futex_count"@,
        (CpuTimeType::Idle, MetricSuffix::Duration) => "kindling_profiling_idle_duration_nanoseconds"@,
        (CpuTimeType::Idle, MetricSuffix::Count) => "kindling_profiling_idle_count"@,
        (CpuTimeType::Other, MetricSuffix::Duration) => "kindling_profiling_other_duration_nanoseconds"@,
        (CpuTimeType::Other, MetricSuffix::Count) => "kindling_profiling_other_count"@,
        (CpuTimeType::Epoll, MetricSuffix::Duration) => "kindling_profiling_epoll_duration_nanoseconds"@,
        (CpuTimeType::Epoll, MetricSuffix::Count) => "kindling_profiling_epoll_count"@,
        (CpuTimeType::Max, _) => "MaxNumOfElements"@,
    }
}

/// Exported metric name for a CPU-time category and metric family.
pub fn get_metric_name(time_type: &CpuTimeType, metric_name: MetricSuffix) -> (r: &'static str)
    ensures
        r@ == metric_name_spec(*time_type, metric_name),
{
    match (time_type, metric_name) {
        (CpuTimeType::OnCpu, MetricSuffix::Duration) => "kindling_profiling_cpu_duration_nanoseconds",
        (CpuTimeType::OnCpu, MetricSuffix::Count) => "kindling_profiling_cpu_count",
        (CpuTimeType::File, MetricSuffix::Duration) => "kindling_profiling_file_duration_nanoseconds",
        (CpuTimeType::File, MetricSuffix::Count) => "kindling_profiling_file_count",
        (CpuTimeType::Net, MetricSuffix::Duration) => "kindling_profiling_net_duration_nanoseconds",
        (CpuTimeType::Net, MetricSuffix::Count) => "kindling_profiling_net_count",
        (CpuTimeType::Futex, MetricSuffix::Duration) => "kindling_profiling_futex_duration_nanoseconds",
        (CpuTimeType::Futex, MetricSuffix::Count) => "kindling_profiling_futex_count",
        (CpuTimeType::Idle, MetricSuffix::Duration) => "kindling_profiling_idle_duration_nanoseconds",
        (CpuTimeType::Idle, MetricSuffix::Count) => "kindling_profiling_idle_count",
        (CpuTimeType::Other, MetricSuffix::Duration) => "kindling_profiling_other_duration_nanoseconds",
        (CpuTimeType::Other, MetricSuffix::Count) => "kindling_profiling_other_count",
        (CpuTimeType::Epoll, MetricSuffix::Duration) => "kindling_profiling_epoll_duration_nanoseconds",
        (CpuTimeType::Epoll, MetricSuffix::Count) => "kindling_profiling_epoll_count",
        (CpuTimeType::Max, _) => "MaxNumOfElements",
    }
}

/// Durations and event counts per CPU-time category, plus the run-queue
/// time taken out of them.
pub struct AggregatedTime {
    pub times: Vec<u64>,
    pub counts: Vec<u64>,
    pub runq_duration: u64,
}

#[verifier::ext_equal]
pub ghost struct AggView {
    pub times: Seq<u64>,
    pub counts: Seq<u64>,
    pub runq_duration: u64,
}

impl View for AggregatedTime {
    type V = AggView;

    open spec fn view(&self) -> AggView {
        AggView { times: self.times@, counts: self.counts@, runq_duration: self.runq_duration }
    }
}

impl AggregatedTime {
    /// Both category tables hold one slot per CPU-time category.
    pub open spec fn wf(&self) -> bool {
        self.times@.len() == CPUTYPE_MAX && self.counts@.len() == CPUTYPE_MAX
    }

    pub fn len(&self) -> (r: usize)
        requires
            self.wf(),
        ensures
            r == CPUTYPE_MAX,
    {
        self.times.len()
    }
}

impl Default for AggregatedTime {
    fn default() -> (r: Self)
        ensures
            r.wf(),
            r@ == agg_zero(),
    {
        let mut times: Vec<u64> = Vec::new();
        let mut counts: Vec<u64> = Vec::new();
        let mut i: usize = 0;
        while i < CPUTYPE_MAX
            invariant
                i <= CPUTYPE_MAX,
                times@.len() == i,
                counts@.len() == i,
                forall|m: int| 0 <= m < i ==> times@[m] == 0u64 && counts@[m] == 0u64,
            decreases CPUTYPE_MAX - i,
        {
            times.push(0);
            counts.push(0);
            i = i + 1;
        }
        let r = AggregatedTime { times, counts, runq_duration: 0 };
        proof {
            assert(r@.times =~= agg_zero().times);
            assert(r@.counts =~= agg_zero().counts);
            assert(r@ =~= agg_zero());
        }
        r
    }
}

pub open spec fn agg_zero() -> AggView {
    AggView {
        times: Seq::new(CPUTYPE_MAX as nat, |i: int| 0u64),
        counts: Seq::new(CPUTYPE_MAX as nat, |i: int| 0u64),
        runq_duration: 0,
    }
}

/// Addition that pegs at the largest representable value instead of
/// wrapping; all accumulation in a query uses it.
pub open spec fn sat_add(a: u64, b: u64) -> u64 {
    if a + b > u64::MAX {
        u64::MAX
    } else {
        (a + b) as u64
    }
}

pub fn sat_add_u64(a: u64, b: u64) -> (r: u64)
    ensures
        r == sat_add(a, b),
{
    if a > u64::MAX - b {
        u64::MAX
    } else {
        a + b
    }
}

/// Microseconds to nanoseconds, pegged at the largest value.
pub open spec fn sat_mul_1000(a: u64) -> u64 {
    if a * 1000 > u64::MAX {
        u64::MAX
    } else {
        (a * 1000) as u64
    }
}

pub fn sat_mul_1000_u64(a: u64) -> (r: u64)
    ensures
        r == sat_mul_1000(a),
{
    if a > u64::MAX / 1000 {
        proof {
            assert(a * 1000 > u64::MAX) by (nonlinear_arith)
                requires
                    a > u64::MAX / 1000,
            ;
        }
        u64::MAX
    } else {
        proof {
            assert(a * 1000 <= u64::MAX) by (nonlinear_arith)
                requires
                    a <= u64::MAX / 1000,
            ;
        }
        a * 1000
    }
}

/// One sub-interval's (on/off duration, run-queue duration) contribution
/// for a query range, given the sub-interval starts at `cur`: nothing if
/// it misses the range; otherwise the exact overlap with the range,
/// clipped at both its start and its end, with run-queue latency moved to
/// its own sum for blocked categories, clamped when it exceeds the
/// overlap.
pub open spec fn sub_on_off_runq(
    ev: CpuEventView,
    i: int,
    qs: u64,
    qe: u64,
    cur: u64,
) -> (u64, u64) {
    let on0 = ev.type_specs[i];
    if sat_add(cur, on0) < qs || cur > qe {
        (0u64, 0u64)
    } else {
        // The overlap of [cur, cur + on0] with [qs, qe]: clipped at both
        // the range's start and its end.
        let lo = if cur > qs {
            cur
        } else {
            qs
        };
        let hi = if sat_add(cur, on0) < qe {
            sat_add(cur, on0)
        } else {
            qe
        };
        let on1 = if hi >= lo {
            (hi - lo) as u64
        } else {
            0u64
        };
        if ev.time_type[i] > 0 {
            let rq = sat_mul_1000(ev.runq_latency[i / 2]);
            if rq > 0 {
                if on1 < rq {
                    (0u64, on1)
                } else {
                    ((on1 - rq) as u64, rq)
                }
            } else {
                (on1, 0u64)
            }
        } else {
            (on1, 0u64)
        }
    }
}

/// Folds one sub-interval's contribution into the running sums; empty
/// contributions do not bump the event count.
pub open spec fn agg_add(a: AggView, tt: u8, on: u64, rq: u64) -> AggView {
    if on > 0 || rq > 0 {
        AggView {
            times: a.times.update(tt as int, sat_add(a.times[tt as int], on)),
            counts: a.counts.update(tt as int, sat_add(a.counts[tt as int], 1)),
            runq_duration: sat_add(a.runq_duration, rq),
        }
    } else {
        a
    }
}

/// Walks an event's sub-intervals from `i`, with the i-th starting at
/// `cur`.
pub open spec fn agg_event_from(
    a: AggView,
    ev: CpuEventView,
    i: int,
    cur: u64,
    qs: u64,
    qe: u64,
) -> AggView
    decreases ev.type_specs.len() - i,
{
    if i < 0 || i >= ev.type_specs.len() {
        a
    } else {
        let (on, rq) = sub_on_off_runq(ev, i, qs, qe, cur);
        agg_event_from(
            agg_add(a, ev.time_type[i], on, rq),
            ev,
            i + 1,
            sat_add(cur, ev.type_specs[i]),
            qs,
            qe,
        )
    }
}

/// One event's whole contribution; events outside the range are skipped.
pub open spec fn agg_event(a: AggView, ev: CpuEventView, qs: u64, qe: u64) -> AggView {
    if ev.start_time > qe || ev.end_time < qs {
        a
    } else {
        agg_event_from(a, ev, 0, ev.start_time, qs, qe)
    }
}

pub open spec fn agg_events_from(
    a: AggView,
    evs: Seq<CpuEventView>,
    i: int,
    qs: u64,
    qe: u64,
) -> AggView
    decreases evs.len() - i,
{
    if i < 0 || i >= evs.len() {
        a
    } else {
        agg_events_from(agg_event(a, evs[i], qs, qe), evs, i + 1, qs, qe)
    }
}

/// The aggregation of a list of events clipped to `[qs, qe]`: the
/// reference every query result is held to.
pub open spec fn spec_aggregate(evs: Seq<CpuEventView>, qs: u64, qe: u64) -> AggView {
    agg_events_from(agg_zero(), evs, 0, qs, qe)
}

/// Keeps `ev` only when its end lies past the last kept event's end: an
/// event stamped into several buckets is collected once, provided events
/// were ingested in order of their ends.
pub open spec fn dedup_push(acc: Seq<CpuEventView>, ev: CpuEventView) -> Seq<CpuEventView> {
    let last_end = if acc.len() == 0 {
        0u64
    } else {
        acc.last().end_time
    };
    if ev.end_time > last_end {
        acc.push(ev)
    } else {
        acc
    }
}

pub open spec fn dedup_events(acc: Seq<CpuEventView>, evs: Seq<CpuEventView>, i: int) -> Seq<
    CpuEventView,
>
    decreases evs.len() - i,
{
    if i < 0 || i >= evs.len() {
        acc
    } else {
        dedup_events(dedup_push(acc, evs[i]), evs, i + 1)
    }
}

/// The deduplicated events of buckets `si .. b`, in bucket order.
pub open spec fn collect_upto(segs: Seq<SegmentView>, si: int, b: int) -> Seq<CpuEventView>
    decreases b - si,
{
    if b <= si {
        Seq::empty()
    } else {
        dedup_events(collect_upto(segs, si, b - 1), segs[b - 1].cpu_events, 0)
    }
}

/// The first position at or after `i` whose event starts at or after
/// `target`, or the length when none does.
pub open spec fn lower_bound_spec(evs: Seq<CpuEventView>, target: u64, i: int) -> int
    decreases evs.len() - i,
{
    if i < 0 || i >= evs.len() {
        evs.len() as int
    } else if evs[i].start_time >= target {
        i
    } else {
        lower_bound_spec(evs, target, i + 1)
    }
}

pub proof fn lemma_lower_bound_mono(evs: Seq<CpuEventView>, a: u64, b: u64, i: int)
    requires
        a <= b,
    ensures
        lower_bound_spec(evs, a, i) <= lower_bound_spec(evs, b, i),
    decreases evs.len() - i,
{
    if 0 <= i < evs.len() {
        if evs[i].start_time >= a {
            if evs[i].start_time >= b {
            } else {
                lemma_lower_bound_range(evs, b, i + 1);
            }
        } else {
            lemma_lower_bound_mono(evs, a, b, i + 1);
        }
    }
}

pub proof fn lemma_lower_bound_range(evs: Seq<CpuEventView>, target: u64, i: int)
    requires
        0 <= i <= evs.len(),
    ensures
        i <= lower_bound_spec(evs, target, i) <= evs.len(),
    decreases evs.len() - i,
{
    if i < evs.len() {
        if evs[i].start_time < target {
            lemma_lower_bound_range(evs, target, i + 1);
        }
    }
}

/// The events a query `[qs, qe]` selects from a window: the deduplicated
/// events of the touched buckets, narrowed by start-timestamp to those
/// that can intersect the range, with one extra event kept before the
/// start to catch an interval that began just before it.
pub open spec fn spec_selected(w: WinView, qs: u64, qe: u64) -> Seq<CpuEventView> {
    let start_sec = sec_of(qs);
    let end_sec = sec_of(qe);
    if end_sec < w.base_time || start_sec > w.base_time + MAX_SEGMENT_SIZE {
        Seq::empty()
    } else {
        let si = if start_sec > w.base_time {
            start_sec - w.base_time
        } else {
            0
        };
        let ei = crate::cpu_analyzer::spec_min(
            (end_sec - w.base_time) as int,
            MAX_SEGMENT_SIZE as int - 1,
        );
        let evs = collect_upto(w.segments, si as int, ei + 1);
        let lb_s = lower_bound_spec(evs, qs, 0);
        let s_idx = if lb_s > 0 {
            lb_s - 1
        } else {
            0
        };
        let e_idx = lower_bound_spec(evs, qe, 0);
        evs.subrange(s_idx, e_idx)
    }
}

/// What `get_times` answers when the window has seen data up to the
/// query's end.
pub open spec fn spec_get_times(w: WinView, qs: u64, qe: u64) -> AggView {
    spec_aggregate(spec_selected(w, qs, qe), qs, qe)
}

/// First index whose event starts at or after `target`.
///
/// The narrowing this position is used for is only meaningful when the
/// collected events are ordered by start timestamp, which in-order
/// ingestion guarantees.
pub fn lower_bound_event(events: &Vec<&CpuEvent>, target_time: u64) -> (r: usize)
    ensures
        r == lower_bound_spec(events.deep_view(), target_time, 0),
        r <= events.deep_view().len(),
{
    let ghost evs = events.deep_view();
    let mut j: usize = 0;
    while j < events.len()
        invariant
            j <= evs.len(),
            evs == events.deep_view(),
            evs.len() == events@.len(),
            lower_bound_spec(evs, target_time, 0) == lower_bound_spec(evs, target_time, j as int),
        decreases evs.len() - j,
    {
        let ev = events[j];
        proof {
            assert(ev@ == evs[j as int]);
        }
        if ev.start_time >= target_time {
            return j;
        }
        j = j + 1;
    }
    j
}

/// Collects, deduplicates and narrows the CPU events a query range
/// touches.
pub fn get_cpu_events<'a>(segments: &'a TimeSegments, start_time: u64, end_time: u64) -> (r: Vec<
    &'a CpuEvent,
>)
    requires
        segments.inv(),
        start_time <= end_time,
    ensures
        r.deep_view() == spec_selected(segments@, start_time, end_time),
        forall|k: int|
            0 <= k < r.deep_view().len() ==> cpu_event_wf(#[trigger] r.deep_view()[k]),
{
    let ghost w = segments@;
    let start_time_second = start_time / NANO_TO_SECONDS;
    let end_time_second = end_time / NANO_TO_SECONDS;
    if end_time_second < segments.base_time || start_time_second > segments.base_time
        + MAX_SEGMENT_SIZE as u64 {
        let r: Vec<&CpuEvent> = Vec::new();
        proof {
            assert(r.deep_view() =~= spec_selected(w, start_time, end_time));
        }
        return r;
    }
    let mut start_index: usize = 0;
    if start_time_second > segments.base_time {
        start_index = (start_time_second - segments.base_time) as usize;
    }
    let end_offset = end_time_second - segments.base_time;
    let end_index: usize = if end_offset >= MAX_SEGMENT_SIZE as u64 {
        MAX_SEGMENT_SIZE - 1
    } else {
        end_offset as usize
    };
    let ghost si = start_index as int;
    let ghost ei = end_index as int;

    let mut events: Vec<&CpuEvent> = Vec::new();
    let mut last_cpu_end_time: u64 = 0;
    let mut b: usize = start_index;
    proof {
        assert(collect_upto(w.segments, si, si) =~= Seq::<CpuEventView>::empty());
    }
    while b <= end_index && b < MAX_SEGMENT_SIZE
        invariant
            segments.inv(),
            w == segments@,
            start_index <= b <= MAX_SEGMENT_SIZE,
            b <= end_index + 1,
            si == start_index as int,
            ei == end_index as int,
            end_index < MAX_SEGMENT_SIZE,
            events.deep_view() == collect_upto(w.segments, si, b as int),
            events.deep_view().len() == 0 ==> last_cpu_end_time == 0,
            events.deep_view().len() > 0 ==> last_cpu_end_time == events.deep_view().last().end_time,
            forall|k: int|
                0 <= k < events.deep_view().len() ==> cpu_event_wf(
                    #[trigger] events.deep_view()[k],
                ),
        decreases end_index + 1 - b,
    {
        let seg_opt = segments.segments.get_by_index(b);
        match seg_opt {
            Some(segment) => {
                let ghost acc0 = events.deep_view();
                let ghost bevs = segment@.cpu_events;
                let mut j: usize = 0;
                while j < segment.cpu_events.len()
                    invariant
                        segments.inv(),
                        w == segments@,
                        b < MAX_SEGMENT_SIZE,
                        segment@ == w.segments[b as int],
                        bevs == segment@.cpu_events,
                        j <= bevs.len(),
                        bevs.len() == segment.cpu_events@.len(),
                        dedup_events(events.deep_view(), bevs, j as int) == dedup_events(
                            acc0,
                            bevs,
                            0,
                        ),
                        events.deep_view().len() == 0 ==> last_cpu_end_time == 0,
                        events.deep_view().len() > 0 ==> last_cpu_end_time
                            == events.deep_view().last().end_time,
                        forall|k: int|
                            0 <= k < events.deep_view().len() ==> cpu_event_wf(
                                #[trigger] events.deep_view()[k],
                            ),
                    decreases bevs.len() - j,
                {
                    let e = &segment.cpu_events[j];
                    proof {
                        assert(e@ == bevs[j as int]);
                        assert(cpu_event_wf(bevs[j as int]));
                    }
                    let ghost before = events.deep_view();
                    if e.end_time > last_cpu_end_time {
                        events.push(e);
                        last_cpu_end_time = e.end_time;
                        proof {
                            assert(events.deep_view() =~= before.push(e@));
                        }
                    }
                    proof {
                        assert(events.deep_view() == dedup_push(before, bevs[j as int]));
                    }
                    j = j + 1;
                }
            },
            None => {},
        }
        b = b + 1;
    }
    let ghost evs = events.deep_view();
    proof {
        assert(evs == collect_upto(w.segments, si, ei + 1));
    }

    let lb_s = lower_bound_event(&events, start_time);
    let mut start: usize = lb_s;
    if start > 0 {
        start = start - 1;
    }
    let end = lower_bound_event(&events, end_time);
    proof {
        lemma_lower_bound_mono(evs, start_time, end_time, 0);
        lemma_lower_bound_range(evs, start_time, 0);
        lemma_lower_bound_range(evs, end_time, 0);
    }

    let mut r: Vec<&CpuEvent> = Vec::new();
    let mut m: usize = start;
    while m < end
        invariant
            start <= m <= end,
            end <= evs.len(),
            evs == events.deep_view(),
            evs.len() == events@.len(),
            r.deep_view() == evs.subrange(start as int, m as int),
            forall|k: int| 0 <= k < evs.len() ==> cpu_event_wf(#[trigger] evs[k]),
        decreases end - m,
    {
        let ghost before = r.deep_view();
        r.push(events[m]);
        proof {
            assert(r.deep_view() =~= before.push(evs[m as int]));
            assert(r.deep_view() =~= evs.subrange(start as int, (m + 1) as int));
        }
        m = m + 1;
    }
    proof {
        assert(r.deep_view() == spec_selected(w, start_time, end_time));
        assert forall|k: int| 0 <= k < r.deep_view().len() implies cpu_event_wf(
            #[trigger] r.deep_view()[k],
        ) by {
            assert(r.deep_view()[k] == evs[start + k]);
        }
    }
    r
}

impl CpuAnalyzer {
    /// Aggregated CPU time for (pid, tid) over `[start_time, end_time]`.
    ///
    /// Nothing is answered when no window exists for the key or when the
    /// window has not yet seen data up to `end_time`; the caller retries
    /// later.  Otherwise the result equals [`spec_get_times`] on the
    /// window, which `crate::laws::lemma_get_times_matches_rescan` shows
    /// equals a naive re-scan of the ingested events clipped to the range,
    /// for in-order, non-overlapping ingestion into one rolling window.
    pub fn get_times(&self, pid: u32, tid: u32, start_time: u64, end_time: u64) -> (r: Option<
        AggregatedTime,
    >)
        requires
            self.wf(),
            start_time <= end_time,
        ensures
            ({
                let ws = self.windows();
                if !crate::cpu_analyzer::has_win(ws, pid, tid) {
                    r is None
                } else {
                    let w = ws[win_idx(ws, pid, tid)];
                    if w.latest_time < end_time {
                        r is None
                    } else {
                        r matches Some(agg) && agg.wf() && agg@ == spec_get_times(
                            w,
                            start_time,
                            end_time,
                        )
                    }
                }
            }),
    {
        match self.find_window(pid, tid) {
            None => None,
            Some(i) => {
                let segments = &self.cpu_pid_events[i];
                proof {
                    assert(segments@ == self.windows()[i as int]);
                    assert(segments.inv());
                }
                if segments.latest_time < end_time {
                    return None;
                }
                let cpu_events = get_cpu_events(segments, start_time, end_time);
                Some(aggregate_time(&cpu_events, start_time, end_time))
            },
        }
    }
}

/// One sub-interval's clipped contribution, executable form.
pub fn get_on_off_runq_time(
    event: &CpuEvent,
    i: usize,
    start_time: u64,
    end_time: u64,
    current_time: u64,
) -> (r: (u64, u64))
    requires
        cpu_event_wf(event@),
        i < event@.type_specs.len(),
    ensures
        r == sub_on_off_runq(event@, i as int, start_time, end_time, current_time),
{
    let mut on_off_time = event.type_specs[i];
    if sat_add_u64(current_time, on_off_time) < start_time || current_time > end_time {
        return (0, 0);
    }
    let lo = if current_time > start_time {
        current_time
    } else {
        start_time
    };
    let hi0 = sat_add_u64(current_time, on_off_time);
    let hi = if hi0 < end_time {
        hi0
    } else {
        end_time
    };
    on_off_time = if hi >= lo {
        hi - lo
    } else {
        0
    };
    let mut runq_time: u64 = 0;
    if event.time_type[i] > 0 {
        runq_time = sat_mul_1000_u64(event.runq_latency[i / 2]);
        if runq_time > 0 {
            if on_off_time < runq_time {
                runq_time = on_off_time;
                on_off_time = 0;
            } else {
                on_off_time = on_off_time - runq_time;
            }
        }
    }
    (on_off_time, runq_time)
}

/// Sums the contribution of every collected event, clipped to the range.
pub fn aggregate_time(cpu_events: &Vec<&CpuEvent>, start_time: u64, end_time: u64) -> (r:
    AggregatedTime)
    requires
        forall|k: int|
            0 <= k < cpu_events.deep_view().len() ==> cpu_event_wf(#[trigger] cpu_events.deep_view()[k]),
    ensures
        r.wf(),
        r@ == spec_aggregate(cpu_events.deep_view(), start_time, end_time),
{
    let ghost evs = cpu_events.deep_view();
    let mut aggregated_time = AggregatedTime::default();
    let mut k: usize = 0;
    while k < cpu_events.len()
        invariant
            k <= evs.len(),
            evs == cpu_events.deep_view(),
            evs.len() == cpu_events@.len(),
            forall|m: int| 0 <= m < evs.len() ==> cpu_event_wf(#[trigger] evs[m]),
            aggregated_time.wf(),
            agg_events_from(aggregated_time@, evs, k as int, start_time, end_time)
                == spec_aggregate(evs, start_time, end_time),
        decreases evs.len() - k,
    {
        let event = cpu_events[k];
        proof {
            assert(event@ == evs[k as int]);
        }
        let ghost a0 = aggregated_time@;
        let skip = event.start_time > end_time || event.end_time < start_time;
        if !skip {
            let mut current_time = event.start_time;
            let mut i: usize = 0;
            while i < event.type_specs.len()
                invariant
                    i <= event@.type_specs.len(),
                    cpu_event_wf(event@),
                    aggregated_time.wf(),
                    agg_event_from(
                        aggregated_time@,
                        event@,
                        i as int,
                        current_time,
                        start_time,
                        end_time,
                    ) == agg_event_from(a0, event@, 0, event@.start_time, start_time, end_time),
                decreases event@.type_specs.len() - i,
            {
                let ghost a_prev = aggregated_time@;
                let (on_off_time, runq_time) = get_on_off_runq_time(
                    event,
                    i,
                    start_time,
                    end_time,
                    current_time,
                );
                if on_off_time > 0 || runq_time > 0 {
                    let tt = event.time_type[i] as usize;
                    let old_t = aggregated_time.times[tt];
                    aggregated_time.times.set(tt, sat_add_u64(old_t, on_off_time));
                    let old_c = aggregated_time.counts[tt];
                    aggregated_time.counts.set(tt, sat_add_u64(old_c, 1));
                    aggregated_time.runq_duration = sat_add_u64(
                        aggregated_time.runq_duration,
                        runq_time,
                    );
                }
                proof {
                    assert(aggregated_time@ == agg_add(
                        a_prev,
                        event@.time_type[i as int],
                        on_off_time,
                        runq_time,
                    ));
                }
                current_time = sat_add_u64(current_time, event.type_specs[i]);
                i = i + 1;
            }
        }
        k = k + 1;
    }
    aggregated_time
}

} // verus!
