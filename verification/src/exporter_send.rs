//! Delivery of aggregation results: profiling bundles for a resolved
//! request's time range, and per-category metric records for batched
//! aggregation signals.  Everything is handed back by value; the
//! surrounding program owns the actual export.

use vstd::prelude::*;

use crate::cpu_analyzer::{
    has_win, spec_min, win_idx, CpuAnalyzer, TimeSegments, WinView, BASE_TIME_BOUND,
};
use crate::export_model::{bundle_of, TraceProfiling, TraceProfilingView};
use crate::segment::{SegmentView, CPUTYPE_MAX, MAX_SEGMENT_SIZE, NANO_TO_SECONDS};
use crate::time_aggregate::{
    get_metric_name, metric_name_spec, spec_get_times, AggView, AggregatedTime, CpuTimeType,
    MetricSuffix,
};
use crate::traceid_model::{SignalEvent, SignalEventView, TraceEvent, TraceEventView};

verus! {

/// A bucket after export: same contents, dirty flag cleared, with a new
/// wall-clock export stamp whose text is not tracked.
pub open spec fn sent_marked(s0: SegmentView, s1: SegmentView) -> bool {
    s1 == (SegmentView { is_send: 1i32, index_timestamp: s1.index_timestamp, ..s0 })
}

/// A window after exporting buckets `lo ..= hi`: non-empty buckets in the
/// range are marked sent, everything else stands.
pub open spec fn sent_window(w0: WinView, w1: WinView, lo: int, hi: int) -> bool {
    &&& w1.pid == w0.pid
    &&& w1.tid == w0.tid
    &&& w1.thread_name == w0.thread_name
    &&& w1.base_time == w0.base_time
    &&& w1.latest_time == w0.latest_time
    &&& w1.segments.len() == w0.segments.len()
    &&& forall|b: int|
        0 <= b < w0.segments.len() ==> if lo <= b <= hi && w0.segments[b].cpu_events.len() > 0 {
            sent_marked(w0.segments[b], #[trigger] w1.segments[b])
        } else {
            w1.segments[b] == w0.segments[b]
        }
}

/// The bundles exported for buckets `lo ..= hi`: one per non-empty
/// bucket, in bucket order.
pub open spec fn bundles_in(
    segs: Seq<SegmentView>,
    lo: int,
    hi: int,
    pid: u32,
    tid: u32,
    tname: Seq<char>,
    te: TraceEventView,
) -> Seq<TraceProfilingView>
    decreases hi + 1 - lo,
{
    if hi < lo {
        Seq::empty()
    } else {
        bundles_in(segs, lo, hi - 1, pid, tid, tname, te) + (if segs[hi].cpu_events.len() > 0 {
            seq![bundle_of(segs[hi], pid, tid, tname, te)]
        } else {
            Seq::empty()
        })
    }
}

/// Exports buckets `lo ..= hi` of one window: non-empty ones are
/// stamped, bundled and marked sent.
fn send_window_range(
    w: &mut TimeSegments,
    pid: u32,
    tid: u32,
    trace_event: &TraceEvent,
    lo: usize,
    hi: usize,
) -> (r: Vec<TraceProfiling>)
    requires
        old(w).inv(),
        hi < MAX_SEGMENT_SIZE,
    ensures
        final(w).inv(),
        sent_window(old(w)@, final(w)@, lo as int, hi as int),
        r.deep_view() == bundles_in(
            old(w)@.segments,
            lo as int,
            hi as int,
            pid,
            tid,
            old(w)@.thread_name,
            trace_event@,
        ),
{
    let ghost w0 = (*w)@;
    let thread_name = w.thread_name.clone();
    let mut r: Vec<TraceProfiling> = Vec::new();
    if lo > hi {
        proof {
            assert(r.deep_view() =~= bundles_in(
                w0.segments,
                lo as int,
                hi as int,
                pid,
                tid,
                w0.thread_name,
                trace_event@,
            ));
        }
        return r;
    }
    let mut i: usize = lo;
    while i <= hi
        invariant
            lo <= i <= hi + 1,
            hi < MAX_SEGMENT_SIZE,
            w.segments.wf(),
            w.segments.spec_length() == MAX_SEGMENT_SIZE,
            w.segments@.len() == MAX_SEGMENT_SIZE,
            w.pid == w0.pid,
            w.tid == w0.tid,
            w.thread_name@ == w0.thread_name,
            thread_name@ == w0.thread_name,
            w.base_time == w0.base_time,
            w.latest_time == w0.latest_time,
            w0.segments.len() == MAX_SEGMENT_SIZE,
            crate::cpu_analyzer::win_ok(w0),
            forall|b: int|
                0 <= b < MAX_SEGMENT_SIZE ==> if lo <= b < i && w0.segments[b].cpu_events.len()
                    > 0 {
                    sent_marked(w0.segments[b], #[trigger] w.segments@[b])
                } else {
                    w.segments@[b] == w0.segments[b]
                },
            r.deep_view() == bundles_in(
                w0.segments,
                lo as int,
                i - 1,
                pid,
                tid,
                w0.thread_name,
                trace_event@,
            ),
        decreases hi + 1 - i,
    {
        let ghost r_before = r.deep_view();
        let seg = w.segments.get_by_index_mut(i);
        if seg.is_not_empty() {
            seg.update_index_timestamp();
            let profiling = seg.to_data_group(pid, tid, thread_name.as_str(), trace_event);
            proof {
                assert(profiling@ == bundle_of(
                    w0.segments[i as int],
                    pid,
                    tid,
                    w0.thread_name,
                    trace_event@,
                ));
            }
            r.push(profiling);
            seg.mark_sent();
            proof {
                assert(r.deep_view() =~= r_before.push(
                    bundle_of(w0.segments[i as int], pid, tid, w0.thread_name, trace_event@),
                ));
                assert(r.deep_view() =~= bundles_in(
                    w0.segments,
                    lo as int,
                    i as int,
                    pid,
                    tid,
                    w0.thread_name,
                    trace_event@,
                ));
            }
        } else {
            proof {
                assert(r.deep_view() =~= bundles_in(
                    w0.segments,
                    lo as int,
                    i as int,
                    pid,
                    tid,
                    w0.thread_name,
                    trace_event@,
                ));
            }
        }
        i = i + 1;
    }
    proof {
        crate::cpu_analyzer::lemma_stamp_keeps_win_ok(w0, (*w)@);
    }
    r
}

/// How `send_event` relates the stores before and after and what it
/// hands out: nothing when the key has no window or the range misses it;
/// otherwise the window's overlapped, non-empty buckets are bundled and
/// marked.
pub open spec fn send_event_rel(
    ows: Seq<WinView>,
    nws: Seq<WinView>,
    out: Seq<TraceProfilingView>,
    pid: u32,
    tid: u32,
    qs: u64,
    qe: u64,
    te: TraceEventView,
) -> bool {
    if !has_win(ows, pid, tid) {
        nws == ows && out.len() == 0
    } else {
        let wi = win_idx(ows, pid, tid);
        let w = ows[wi];
        if crate::cpu_analyzer::sec_of(qe) < w.base_time || crate::cpu_analyzer::sec_of(qs)
            > w.base_time + MAX_SEGMENT_SIZE {
            nws == ows && out.len() == 0
        } else {
            let lo = if crate::cpu_analyzer::sec_of(qs) > w.base_time {
                crate::cpu_analyzer::sec_of(qs) - w.base_time
            } else {
                0
            };
            let hi = spec_min(
                (crate::cpu_analyzer::sec_of(qe) - w.base_time) as int,
                MAX_SEGMENT_SIZE as int - 1,
            );
            &&& nws.len() == ows.len()
            &&& forall|m: int| 0 <= m < ows.len() && m != wi ==> nws[m] == #[trigger] ows[m]
            &&& sent_window(w, nws[wi], lo as int, hi)
            &&& out == bundles_in(w.segments, lo as int, hi, pid, tid, w.thread_name, te)
        }
    }
}

impl CpuAnalyzer {
    /// Exports the profiling bundles of one thread's buckets overlapping
    /// `[start_time, end_time]` and marks those buckets sent.
    pub fn send_event(
        &mut self,
        pid: u32,
        tid: u32,
        start_time: u64,
        end_time: u64,
        trace_event: &TraceEvent,
    ) -> (r: Vec<TraceProfiling>)
        requires
            old(self).wf(),
        ensures
            final(self).wf(),
            final(self).tid_exit_queue@ == old(self).tid_exit_queue@,
            final(self).metric_signals@ == old(self).metric_signals@,
            send_event_rel(
                old(self).windows(),
                final(self).windows(),
                r.deep_view(),
                pid,
                tid,
                start_time,
                end_time,
                trace_event@,
            ),
    {
        let ghost ows = self.windows();
        let wi = match self.find_window(pid, tid) {
            Some(i) => i,
            None => {
                let r: Vec<TraceProfiling> = Vec::new();
                return r;
            },
        };
        let start_time_second = start_time / NANO_TO_SECONDS;
        let end_time_second = end_time / NANO_TO_SECONDS;
        let base = self.cpu_pid_events[wi].base_time;
        proof {
            assert(self.cpu_pid_events@[wi as int].inv());
        }
        if end_time_second < base || start_time_second > base + MAX_SEGMENT_SIZE as u64 {
            let r: Vec<TraceProfiling> = Vec::new();
            return r;
        }
        let lo: usize = if start_time_second > base {
            (start_time_second - base) as usize
        } else {
            0
        };
        let hi_off = end_time_second - base;
        let hi: usize = if hi_off >= MAX_SEGMENT_SIZE as u64 {
            MAX_SEGMENT_SIZE - 1
        } else {
            hi_off as usize
        };
        let ghost w0 = ows[wi as int];
        let ghost prev = self.cpu_pid_events@;
        let r = send_window_range(&mut self.cpu_pid_events[wi], pid, tid, trace_event, lo, hi);
        proof {
            assert forall|m: int|
                0 <= m < self.cpu_pid_events@.len() && m != wi implies self.cpu_pid_events@[m]
                == prev[m] by {}
            assert forall|m: int|
                0 <= m < self.cpu_pid_events@.len() && m != wi implies self.windows()[m]
                == ows[m] by {
                assert(self.windows()[m] == self.cpu_pid_events@[m]@);
            }
            assert(sent_window(w0, self.windows()[wi as int], lo as int, hi as int));
            assert forall|m: int|
                0 <= m < self.cpu_pid_events@.len() implies (
            #[trigger] self.cpu_pid_events@[m]).inv() by {
                if m != wi {
                    assert(prev[m].inv());
                }
            }
            assert forall|a: int, b: int|
                0 <= a < self.windows().len() && 0 <= b < self.windows().len() && a
                    != b implies !(self.windows()[a].pid == self.windows()[b].pid
                && self.windows()[a].tid == self.windows()[b].tid) by {
                if a == wi {
                    assert(sent_window(w0, self.windows()[a], lo as int, hi as int));
                } else {
                    assert(self.windows()[a] == ows[a]);
                }
                if b == wi {
                    assert(sent_window(w0, self.windows()[b], lo as int, hi as int));
                } else {
                    assert(self.windows()[b] == ows[b]);
                }
                assert(self.windows()[a].pid == ows[a].pid && self.windows()[a].tid == ows[a].tid);
                assert(self.windows()[b].pid == ows[b].pid && self.windows()[b].tid == ows[b].tid);
                assert(!(ows[a].pid == ows[b].pid && ows[a].tid == ows[b].tid));
            }
        }
        r
    }

    /// Exports the bundles of every window of `pid` that the range
    /// overlaps, thread by thread in table order.
    pub fn send_events(
        &mut self,
        pid: u32,
        start_time: u64,
        end_time: u64,
        trace_event: &TraceEvent,
    ) -> (r: Vec<TraceProfiling>)
        requires
            old(self).wf(),
        ensures
            final(self).wf(),
            final(self).tid_exit_queue@ == old(self).tid_exit_queue@,
            final(self).metric_signals@ == old(self).metric_signals@,
            final(self).windows().len() == old(self).windows().len(),
            forall|j: int|
                0 <= j < old(self).windows().len() ==> send_one_of_rel(
                    old(self).windows()[j],
                    #[trigger] final(self).windows()[j],
                    pid,
                    start_time,
                    end_time,
                ),
            r.deep_view() == all_bundles(old(self).windows(), 0, pid, start_time, end_time, trace_event@),
    {
        let ghost ows = self.windows();
        let start_time_second = start_time / NANO_TO_SECONDS;
        let end_time_second = end_time / NANO_TO_SECONDS;
        let mut r: Vec<TraceProfiling> = Vec::new();
        let mut j: usize = 0;
        proof {
            assert(r.deep_view() =~= Seq::<TraceProfilingView>::empty());
            assert(r.deep_view() + all_bundles_from(ows, 0, pid, start_time, end_time, trace_event@)
                =~= all_bundles_from(ows, 0, pid, start_time, end_time, trace_event@));
        }
        while j < self.cpu_pid_events.len()
            invariant
                self.wf(),
                crate::cpu_analyzer::keys_unique(ows),
                j <= ows.len(),
                ows.len() == self.cpu_pid_events@.len(),
                self.windows().len() == ows.len(),
                self.tid_exit_queue@ == old(self).tid_exit_queue@,
                self.metric_signals@ == old(self).metric_signals@,
                start_time_second == crate::cpu_analyzer::sec_of(start_time),
                end_time_second == crate::cpu_analyzer::sec_of(end_time),
                forall|m: int| j <= m < ows.len() ==> #[trigger] self.windows()[m] == ows[m],
                forall|m: int|
                    0 <= m < j ==> send_one_of_rel(
                        ows[m],
                        (#[trigger] self.cpu_pid_events@[m])@,
                        pid,
                        start_time,
                        end_time,
                    ),
                forall|m: int|
                    0 <= m < ows.len() ==> (#[trigger] self.cpu_pid_events@[m]).pid == ows[m].pid
                        && self.cpu_pid_events@[m].tid == ows[m].tid,
                r.deep_view() + all_bundles_from(ows, j as int, pid, start_time, end_time, trace_event@)
                    == all_bundles_from(ows, 0, pid, start_time, end_time, trace_event@),
            decreases ows.len() - j,
        {
            let wpid = self.cpu_pid_events[j].pid;
            let wtid = self.cpu_pid_events[j].tid;
            let base = self.cpu_pid_events[j].base_time;
            let ghost prev = self.cpu_pid_events@;
            proof {
                assert(self.cpu_pid_events@[j as int].inv());
                assert(self.windows()[j as int] == ows[j as int]);
                assert forall|m: int| j <= m < ows.len() implies prev[m]@ == ows[m] by {
                    assert(self.windows()[m] == self.cpu_pid_events@[m]@);
                }
            }
            if wpid == pid && !(end_time_second < base || start_time_second > base
                + MAX_SEGMENT_SIZE as u64) {
                let lo: usize = if start_time_second > base {
                    (start_time_second - base) as usize
                } else {
                    0
                };
                let hi_off = end_time_second - base;
                let hi: usize = if hi_off >= MAX_SEGMENT_SIZE as u64 {
                    MAX_SEGMENT_SIZE - 1
                } else {
                    hi_off as usize
                };
                let ghost r_before = r.deep_view();
                let mut bundles = send_window_range(
                    &mut self.cpu_pid_events[j],
                    wpid,
                    wtid,
                    trace_event,
                    lo,
                    hi,
                );
                let ghost b_dv = bundles.deep_view();
                r.append(&mut bundles);
                proof {
                    assert(r.deep_view() =~= r_before + b_dv);
                    assert forall|m: int|
                        0 <= m < self.cpu_pid_events@.len() && m != j implies self.cpu_pid_events@[m]
                        == prev[m] by {}
                    assert forall|m: int|
                        0 <= m < self.cpu_pid_events@.len() implies (
                    #[trigger] self.cpu_pid_events@[m]).inv() by {
                        if m != j {
                            assert(prev[m].inv());
                        }
                    }
                    assert forall|m: int|
                        0 <= m < self.cpu_pid_events@.len() implies (
                    #[trigger] self.cpu_pid_events@[m]).pid == ows[m].pid
                        && self.cpu_pid_events@[m].tid == ows[m].tid by {
                        if m != j {
                            assert(self.cpu_pid_events@[m] == prev[m]);
                            assert(prev[m].pid == ows[m].pid && prev[m].tid == ows[m].tid);
                        } else {
                            assert(sent_window(
                                prev[m]@,
                                self.cpu_pid_events@[m]@,
                                lo as int,
                                hi as int,
                            ));
                        }
                    }
                    assert forall|a: int, b: int|
                        0 <= a < self.windows().len() && 0 <= b < self.windows().len() && a
                            != b implies !(self.windows()[a].pid == self.windows()[b].pid
                        && self.windows()[a].tid == self.windows()[b].tid) by {
                        assert(self.windows()[a] == self.cpu_pid_events@[a]@);
                        assert(self.windows()[b] == self.cpu_pid_events@[b]@);
                        assert(self.cpu_pid_events@[a].pid == ows[a].pid
                            && self.cpu_pid_events@[a].tid == ows[a].tid);
                        assert(self.cpu_pid_events@[b].pid == ows[b].pid
                            && self.cpu_pid_events@[b].tid == ows[b].tid);
                        assert(!(ows[a].pid == ows[b].pid && ows[a].tid == ows[b].tid));
                    }
                }
            }
            proof {
                assert forall|m: int|
                    j < m < ows.len() implies #[trigger] self.windows()[m] == ows[m] by {
                    assert(self.windows()[m] == self.cpu_pid_events@[m]@);
                    assert(self.cpu_pid_events@[m] == prev[m]);
                    assert(prev[m]@ == ows[m]);
                }
                assert forall|m: int|
                    0 <= m <= j implies send_one_of_rel(
                    ows[m],
                    (#[trigger] self.cpu_pid_events@[m])@,
                    pid,
                    start_time,
                    end_time,
                ) by {
                    if m < j {
                        assert(self.cpu_pid_events@[m] == prev[m]);
                        assert(send_one_of_rel(ows[m], prev[m]@, pid, start_time, end_time));
                    } else {
                        if wpid == pid && !(end_time_second < base || start_time_second > base
                            + MAX_SEGMENT_SIZE as u64) {
                        } else {
                            assert(self.cpu_pid_events@[m] == prev[m]);
                            assert(self.windows()[m] == ows[m]);
                        }
                    }
                }
            }
            j = j + 1;
        }
        proof {
            assert(all_bundles_from(ows, ows.len() as int, pid, start_time, end_time, trace_event@)
                =~= Seq::<TraceProfilingView>::empty());
            assert(r.deep_view() =~= r.deep_view() + Seq::<TraceProfilingView>::empty());
        }
        r
    }

    /// Routes a profiling signal: a request resolved on its own thread
    /// exports that thread's buckets; one resolved elsewhere exports the
    /// buckets of every thread of the process.
    pub fn handle_profiling_signal(&mut self, event: &TraceEvent) -> (r: Vec<TraceProfiling>)
        requires
            old(self).wf(),
            event.duration <= event.end_time,
        ensures
            final(self).wf(),
            final(self).tid_exit_queue@ == old(self).tid_exit_queue@,
            final(self).metric_signals@ == old(self).metric_signals@,
            event@.is_normal ==> send_event_rel(
                old(self).windows(),
                final(self).windows(),
                r.deep_view(),
                event@.pid,
                event@.tid,
                (event@.end_time - event@.duration) as u64,
                event@.end_time,
                event@,
            ),
            !event@.is_normal ==> r.deep_view() == all_bundles(
                old(self).windows(),
                0,
                event@.pid,
                (event@.end_time - event@.duration) as u64,
                event@.end_time,
                event@,
            ) && final(self).windows().len() == old(self).windows().len() && forall|j: int|
                0 <= j < old(self).windows().len() ==> send_one_of_rel(
                    old(self).windows()[j],
                    #[trigger] final(self).windows()[j],
                    event@.pid,
                    (event@.end_time - event@.duration) as u64,
                    event@.end_time,
                ),
    {
        if event.is_normal {
            self.send_event(
                event.pid,
                event.tid,
                event.end_time - event.duration,
                event.end_time,
                event,
            )
        } else {
            self.send_events(event.pid, event.end_time - event.duration, event.end_time, event)
        }
    }
}

/// Whether a window is touched by a process-wide export and how.
pub open spec fn send_one_of_rel(w0: WinView, w1: WinView, pid: u32, qs: u64, qe: u64) -> bool {
    if w0.pid == pid && !(crate::cpu_analyzer::sec_of(qe) < w0.base_time
        || crate::cpu_analyzer::sec_of(qs) > w0.base_time + MAX_SEGMENT_SIZE) {
        let lo = if crate::cpu_analyzer::sec_of(qs) > w0.base_time {
            crate::cpu_analyzer::sec_of(qs) - w0.base_time
        } else {
            0
        };
        let hi = spec_min(
            (crate::cpu_analyzer::sec_of(qe) - w0.base_time) as int,
            MAX_SEGMENT_SIZE as int - 1,
        );
        sent_window(w0, w1, lo as int, hi)
    } else {
        w1 == w0
    }
}

/// The bundles of the windows at positions `j ..`, concatenated.
pub open spec fn all_bundles_from(
    ws: Seq<WinView>,
    j: int,
    pid: u32,
    qs: u64,
    qe: u64,
    te: TraceEventView,
) -> Seq<TraceProfilingView>
    decreases ws.len() - j,
{
    if j < 0 || j >= ws.len() {
        Seq::empty()
    } else {
        let w = ws[j];
        let here = if w.pid == pid && !(crate::cpu_analyzer::sec_of(qe) < w.base_time
            || crate::cpu_analyzer::sec_of(qs) > w.base_time + MAX_SEGMENT_SIZE) {
            let lo = if crate::cpu_analyzer::sec_of(qs) > w.base_time {
                crate::cpu_analyzer::sec_of(qs) - w.base_time
            } else {
                0
            };
            let hi = spec_min(
                (crate::cpu_analyzer::sec_of(qe) - w.base_time) as int,
                MAX_SEGMENT_SIZE as int - 1,
            );
            bundles_in(w.segments, lo as int, hi, w.pid, w.tid, w.thread_name, te)
        } else {
            Seq::empty()
        };
        here + all_bundles_from(ws, j + 1, pid, qs, qe, te)
    }
}

/// The bundles a process-wide export hands out, window order.
pub open spec fn all_bundles(
    ws: Seq<WinView>,
    j: int,
    pid: u32,
    qs: u64,
    qe: u64,
    te: TraceEventView,
) -> Seq<TraceProfilingView> {
    all_bundles_from(ws, j, pid, qs, qe, te)
}

/// One metric sample for the metrics pipeline, carrying the attributes
/// the pipeline keys on.
pub struct MetricRecord {
    pub name: String,
    pub value: u64,
    pub pid: u32,
    pub content_key: String,
    pub container_id: String,
}

#[verifier::ext_equal]
pub ghost struct MetricRecordView {
    pub name: Seq<char>,
    pub value: u64,
    pub pid: u32,
    pub content_key: Seq<char>,
    pub container_id: Seq<char>,
}

impl View for MetricRecord {
    type V = MetricRecordView;

    open spec fn view(&self) -> MetricRecordView {
        MetricRecordView {
            name: self.name@,
            value: self.value,
            pid: self.pid,
            content_key: self.content_key@,
            container_id: self.container_id@,
        }
    }
}

impl DeepView for MetricRecord {
    type V = MetricRecordView;

    open spec fn deep_view(&self) -> MetricRecordView {
        self.view()
    }
}

pub open spec fn cputype_of(i: int) -> CpuTimeType {
    if i == 0 {
        CpuTimeType::OnCpu
    } else if i == 1 {
        CpuTimeType::File
    } else if i == 2 {
        CpuTimeType::Net
    } else if i == 3 {
        CpuTimeType::Futex
    } else if i == 4 {
        CpuTimeType::Idle
    } else if i == 5 {
        CpuTimeType::Other
    } else if i == 6 {
        CpuTimeType::Epoll
    } else {
        CpuTimeType::Max
    }
}

/// The duration and count records of the first `i` categories.
pub open spec fn records_upto(agg: AggView, ev: SignalEventView, i: int) -> Seq<MetricRecordView>
    decreases i,
{
    if i <= 0 {
        Seq::empty()
    } else {
        records_upto(agg, ev, i - 1) + seq![
            MetricRecordView {
                name: metric_name_spec(cputype_of(i - 1), MetricSuffix::Duration),
                value: agg.times[i - 1],
                pid: ev.pid,
                content_key: ev.content_key,
                container_id: ev.container_id,
            },
            MetricRecordView {
                name: metric_name_spec(cputype_of(i - 1), MetricSuffix::Count),
                value: agg.counts[i - 1],
                pid: ev.pid,
                content_key: ev.content_key,
                container_id: ev.container_id,
            },
        ]
    }
}

/// All the records one aggregation result produces: two per category,
/// plus the run-queue duration when it is not zero.
pub open spec fn metric_records_of(agg: AggView, ev: SignalEventView) -> Seq<MetricRecordView> {
    records_upto(agg, ev, CPUTYPE_MAX as int) + (if agg.runq_duration > 0 {
        seq![
            MetricRecordView {
                name: "kindling_profiling_runq_duration_nanoseconds"@,
                value: agg.runq_duration,
                pid: ev.pid,
                content_key: ev.content_key,
                container_id: ev.container_id,
            },
        ]
    } else {
        Seq::empty()
    })
}

/// Whether a batched aggregation signal can be answered now: its thread
/// has a window and the window has seen data up to the signal's end.
pub open spec fn sendable(ws: Seq<WinView>, ev: SignalEventView) -> bool {
    has_win(ws, ev.pid, ev.tid) && ws[win_idx(ws, ev.pid, ev.tid)].latest_time >= ev.end_time
}

/// The signals among `sigs[i..]` that cannot be answered yet, in order.
pub open spec fn cached_after(ws: Seq<WinView>, sigs: Seq<SignalEventView>, i: int) -> Seq<
    SignalEventView,
>
    decreases sigs.len() - i,
{
    if i < 0 || i >= sigs.len() {
        Seq::empty()
    } else {
        (if !sendable(ws, sigs[i]) {
            seq![sigs[i]]
        } else {
            Seq::empty()
        }) + cached_after(ws, sigs, i + 1)
    }
}

/// The records of the signals among `sigs[i..]` that can be answered.
pub open spec fn records_all(ws: Seq<WinView>, sigs: Seq<SignalEventView>, i: int) -> Seq<
    MetricRecordView,
>
    decreases sigs.len() - i,
{
    if i < 0 || i >= sigs.len() {
        Seq::empty()
    } else {
        (if sendable(ws, sigs[i]) {
            metric_records_of(
                spec_get_times(
                    ws[win_idx(ws, sigs[i].pid, sigs[i].tid)],
                    sigs[i].start_time,
                    sigs[i].end_time,
                ),
                sigs[i],
            )
        } else {
            Seq::empty()
        }) + records_all(ws, sigs, i + 1)
    }
}

impl CpuAnalyzer {
    /// Answers one aggregation signal: the aggregated times plus the
    /// metric records they export, or nothing when the window is missing
    /// or has not caught up to the signal's end yet.
    pub fn send_metric(&self, event: &SignalEvent) -> (r: Option<(AggregatedTime, Vec<MetricRecord>)>)
        requires
            self.wf(),
            event.start_time <= event.end_time,
        ensures
            ({
                let ws = self.windows();
                if !sendable(ws, event@) {
                    r is None
                } else {
                    let agg = spec_get_times(
                        ws[win_idx(ws, event@.pid, event@.tid)],
                        event@.start_time,
                        event@.end_time,
                    );
                    r matches Some((a, recs)) && a.wf() && a@ == agg && recs.deep_view()
                        == metric_records_of(agg, event@)
                }
            }),
    {
        let agg = match self.get_times(event.pid, event.tid, event.start_time, event.end_time) {
            None => {
                return None;
            },
            Some(agg) => agg,
        };
        let mut recs: Vec<MetricRecord> = Vec::new();
        let mut i: usize = 0;
        proof {
            assert(recs.deep_view() =~= records_upto(agg@, event@, 0));
        }
        while i < CPUTYPE_MAX
            invariant
                i <= CPUTYPE_MAX,
                agg.wf(),
                recs.deep_view() == records_upto(agg@, event@, i as int),
            decreases CPUTYPE_MAX - i,
        {
            let ghost before = recs.deep_view();
            let time_type = match CpuTimeType::from_usize(i) {
                Some(t) => t,
                None => {
                    proof {
                        assert(false);
                    }
                    CpuTimeType::OnCpu
                },
            };
            proof {
                assert(time_type == cputype_of(i as int));
            }
            let duration_name = get_metric_name(&time_type, MetricSuffix::Duration);
            recs.push(
                MetricRecord {
                    name: duration_name.to_owned(),
                    value: agg.times[i],
                    pid: event.pid,
                    content_key: event.content_key.clone(),
                    container_id: event.container_id.clone(),
                },
            );
            let count_name = get_metric_name(&time_type, MetricSuffix::Count);
            recs.push(
                MetricRecord {
                    name: count_name.to_owned(),
                    value: agg.counts[i],
                    pid: event.pid,
                    content_key: event.content_key.clone(),
                    container_id: event.container_id.clone(),
                },
            );
            proof {
                assert(recs.deep_view() =~= records_upto(agg@, event@, i + 1));
            }
            i = i + 1;
        }
        if agg.runq_duration > 0 {
            let ghost before = recs.deep_view();
            recs.push(
                MetricRecord {
                    name: "kindling_profiling_runq_duration_nanoseconds".to_owned(),
                    value: agg.runq_duration,
                    pid: event.pid,
                    content_key: event.content_key.clone(),
                    container_id: event.container_id.clone(),
                },
            );
            proof {
                assert(recs.deep_view() =~= metric_records_of(agg@, event@));
            }
        } else {
            proof {
                assert(recs.deep_view() =~= metric_records_of(agg@, event@));
            }
        }
        Some((agg, recs))
    }

    /// Stores a signal whose window has not caught up, for a later sweep.
    pub fn cache_metric_signal(&mut self, event: SignalEvent)
        requires
            old(self).wf(),
            event.start_time <= event.end_time,
        ensures
            final(self).wf(),
            final(self).windows() == old(self).windows(),
            final(self).tid_exit_queue@ == old(self).tid_exit_queue@,
            final(self).metric_signals.deep_view() == old(self).metric_signals.deep_view().push(
                event@,
            ),
    {
        self.metric_signals.push(event);
        proof {
            assert(self.metric_signals.deep_view() =~= old(self).metric_signals.deep_view().push(
                event@,
            ));
            assert(self.windows() =~= old(self).windows());
        }
    }

    /// Answers what it can of a batch of signals and stores the rest.
    pub fn handle_metric_signal(&mut self, events: Vec<SignalEvent>) -> (r: Vec<MetricRecord>)
        requires
            old(self).wf(),
            forall|k: int|
                0 <= k < events.deep_view().len() ==> (#[trigger] events.deep_view()[k]).start_time
                    <= events.deep_view()[k].end_time,
        ensures
            final(self).wf(),
            final(self).windows() == old(self).windows(),
            final(self).tid_exit_queue@ == old(self).tid_exit_queue@,
            final(self).metric_signals.deep_view() == old(self).metric_signals.deep_view()
                + cached_after(old(self).windows(), events.deep_view(), 0),
            r.deep_view() == records_all(old(self).windows(), events.deep_view(), 0),
    {
        let ghost ws = self.windows();
        let ghost evs = events.deep_view();
        let ghost sigs0 = self.metric_signals.deep_view();
        let mut r: Vec<MetricRecord> = Vec::new();
        let mut i: usize = 0;
        proof {
            assert(r.deep_view() + records_all(ws, evs, 0) =~= records_all(ws, evs, 0));
            assert(self.metric_signals.deep_view() + cached_after(ws, evs, 0) =~= sigs0
                + cached_after(ws, evs, 0));
        }
        while i < events.len()
            invariant
                self.wf(),
                i <= evs.len(),
                evs == events.deep_view(),
                evs.len() == events@.len(),
                forall|k: int|
                    0 <= k < evs.len() ==> (#[trigger] evs[k]).start_time <= evs[k].end_time,
                self.windows() == ws,
                self.tid_exit_queue@ == old(self).tid_exit_queue@,
                r.deep_view() + records_all(ws, evs, i as int) == records_all(ws, evs, 0),
                self.metric_signals.deep_view() + cached_after(ws, evs, i as int) == sigs0
                    + cached_after(ws, evs, 0),
            decreases evs.len() - i,
        {
            let event = events[i].clone();
            proof {
                assert(event@ == evs[i as int]);
            }
            let ghost r_before = r.deep_view();
            let ghost m_before = self.metric_signals.deep_view();
            match self.send_metric(&event) {
                Some((_agg, mut recs)) => {
                    let ghost recs_dv = recs.deep_view();
                    r.append(&mut recs);
                    proof {
                        assert(r.deep_view() =~= r_before + recs_dv);
                        assert(r.deep_view() + records_all(ws, evs, i + 1) =~= r_before
                            + records_all(ws, evs, i as int));
                    }
                },
                None => {
                    self.cache_metric_signal(event);
                    proof {
                        assert(self.metric_signals.deep_view() =~= m_before.push(evs[i as int]));
                        assert(self.metric_signals.deep_view() + cached_after(ws, evs, i + 1)
                            =~= m_before + cached_after(ws, evs, i as int));
                    }
                },
            }
            i = i + 1;
        }
        proof {
            assert(records_all(ws, evs, evs.len() as int) =~= Seq::<MetricRecordView>::empty());
            assert(r.deep_view() =~= r.deep_view() + Seq::<MetricRecordView>::empty());
            assert(cached_after(ws, evs, evs.len() as int) =~= Seq::<SignalEventView>::empty());
            assert(self.metric_signals.deep_view() =~= self.metric_signals.deep_view() + Seq::<
                SignalEventView,
            >::empty());
        }
        r
    }

    /// Retries the stored signals: answered ones leave the store with
    /// their records, the rest stay queued in order.
    pub fn send_remove_metrics(&mut self) -> (r: Vec<MetricRecord>)
        requires
            old(self).wf(),
        ensures
            final(self).wf(),
            final(self).windows() == old(self).windows(),
            final(self).tid_exit_queue@ == old(self).tid_exit_queue@,
            final(self).metric_signals.deep_view() == cached_after(
                old(self).windows(),
                old(self).metric_signals.deep_view(),
                0,
            ),
            r.deep_view() == records_all(
                old(self).windows(),
                old(self).metric_signals.deep_view(),
                0,
            ),
    {
        let ghost ws = self.windows();
        let ghost sigs = self.metric_signals.deep_view();
        let mut kept: Vec<SignalEvent> = Vec::new();
        let mut r: Vec<MetricRecord> = Vec::new();
        let mut i: usize = 0;
        proof {
            assert(r.deep_view() + records_all(ws, sigs, 0) =~= records_all(ws, sigs, 0));
            assert(kept.deep_view() + cached_after(ws, sigs, 0) =~= cached_after(ws, sigs, 0));
        }
        while i < self.metric_signals.len()
            invariant
                self.wf(),
                i <= sigs.len(),
                sigs == self.metric_signals.deep_view(),
                sigs.len() == self.metric_signals@.len(),
                self.windows() == ws,
                r.deep_view() + records_all(ws, sigs, i as int) == records_all(ws, sigs, 0),
                kept.deep_view() + cached_after(ws, sigs, i as int) == cached_after(ws, sigs, 0),
                forall|k: int|
                    0 <= k < kept@.len() ==> (#[trigger] kept@[k]).start_time <= kept@[k].end_time,
            decreases sigs.len() - i,
        {
            let event = self.metric_signals[i].clone();
            proof {
                assert(event@ == sigs[i as int]);
            }
            let ghost r_before = r.deep_view();
            let ghost k_before = kept.deep_view();
            match self.send_metric(&event) {
                Some((_agg, mut recs)) => {
                    let ghost recs_dv = recs.deep_view();
                    r.append(&mut recs);
                    proof {
                        assert(r.deep_view() =~= r_before + recs_dv);
                        assert(r.deep_view() + records_all(ws, sigs, i + 1) =~= r_before
                            + records_all(ws, sigs, i as int));
                    }
                },
                None => {
                    kept.push(event);
                    proof {
                        assert(kept.deep_view() =~= k_before.push(sigs[i as int]));
                        assert(kept.deep_view() + cached_after(ws, sigs, i + 1) =~= k_before
                            + cached_after(ws, sigs, i as int));
                    }
                },
            }
            i = i + 1;
        }
        self.metric_signals = kept;
        proof {
            assert(records_all(ws, sigs, sigs.len() as int) =~= Seq::<MetricRecordView>::empty());
            assert(r.deep_view() =~= r.deep_view() + Seq::<MetricRecordView>::empty());
            assert(cached_after(ws, sigs, sigs.len() as int) =~= Seq::<SignalEventView>::empty());
            assert(self.metric_signals.deep_view() =~= self.metric_signals.deep_view() + Seq::<
                SignalEventView,
            >::empty());
            assert(self.windows() =~= ws);
        }
        r
    }
}

/// One timed sweep step of the store: retries the cached aggregation
/// signals.
pub fn delay_send_metrics(cpu_analyzer: &mut CpuAnalyzer) -> (r: Vec<MetricRecord>)
    requires
        old(cpu_analyzer).wf(),
    ensures
        final(cpu_analyzer).wf(),
        final(cpu_analyzer).windows() == old(cpu_analyzer).windows(),
        final(cpu_analyzer).tid_exit_queue@ == old(cpu_analyzer).tid_exit_queue@,
        final(cpu_analyzer).metric_signals.deep_view() == cached_after(
            old(cpu_analyzer).windows(),
            old(cpu_analyzer).metric_signals.deep_view(),
            0,
        ),
        r.deep_view() == records_all(
            old(cpu_analyzer).windows(),
            old(cpu_analyzer).metric_signals.deep_view(),
            0,
        ),
{
    cpu_analyzer.send_remove_metrics()
}

/// The other timed sweep step: evicts the windows of threads whose exit
/// aged past the grace period, exactly as [`crate::cpu_analyzer::tid_delete_spec`]
/// drains them at the observed time's cutoff.
pub fn clear_tid(cpu_analyzer: &mut CpuAnalyzer, expired_ns: u64)
    requires
        old(cpu_analyzer).wf(),
    ensures
        final(cpu_analyzer).wf(),
        final(cpu_analyzer).metric_signals@ == old(cpu_analyzer).metric_signals@,
        exists|now_ns: u64|
            #[trigger] crate::cpu_analyzer::tid_sweep_post(
                old(cpu_analyzer).windows(),
                old(cpu_analyzer).tid_exit_queue@,
                final(cpu_analyzer).windows(),
                final(cpu_analyzer).tid_exit_queue@,
                expired_ns,
                now_ns,
            ),
{
    cpu_analyzer.tid_delete(expired_ns);
}

} // verus!
