//! Exportable values: the profiling bundle built from one segment and
//! the completed trace record wrapper, both handed to the surrounding
//! program by value.

use vstd::prelude::*;

use crate::segment::{
    CpuEventView, JavaFutexEventView, Segment, SegmentView, TransactionIdEventView,
};
use crate::traceid_model::{TraceEvent, TraceEventView};

verus! {

/// The labels of one profiling bundle: one segment's events plus the
/// request metadata they are exported under.
pub struct ProfilingEvent {
    pub content_key: String,
    pub cpu_events: Vec<crate::segment::CpuEvent>,
    pub container_id: String,
    pub container_name: String,
    pub pod_ip: String,
    pub pod_name: String,
    pub workload_name: String,
    pub workload_kind: String,
    pub namespace: String,
    pub node_name: String,
    pub node_ip: String,
    pub end_time: u64,
    pub inner_calls: String,
    pub is_sent: i32,
    pub is_server: bool,
    pub java_futex_events: Vec<crate::segment::JavaFutexEvent>,
    pub pid: u32,
    pub protocol: String,
    pub spans: String,
    pub start_time: u64,
    pub thread_name: String,
    pub tid: u32,
    pub transaction_ids: Vec<crate::segment::TransactionIdEvent>,
    pub offset_ts: i64,
}

#[verifier::ext_equal]
pub ghost struct ProfilingEventView {
    pub content_key: Seq<char>,
    pub cpu_events: Seq<CpuEventView>,
    pub container_id: Seq<char>,
    pub container_name: Seq<char>,
    pub pod_ip: Seq<char>,
    pub pod_name: Seq<char>,
    pub workload_name: Seq<char>,
    pub workload_kind: Seq<char>,
    pub namespace: Seq<char>,
    pub node_name: Seq<char>,
    pub node_ip: Seq<char>,
    pub end_time: u64,
    pub inner_calls: Seq<char>,
    pub is_sent: i32,
    pub is_server: bool,
    pub java_futex_events: Seq<JavaFutexEventView>,
    pub pid: u32,
    pub protocol: Seq<char>,
    pub spans: Seq<char>,
    pub start_time: u64,
    pub thread_name: Seq<char>,
    pub tid: u32,
    pub transaction_ids: Seq<TransactionIdEventView>,
    pub offset_ts: i64,
}

impl View for ProfilingEvent {
    type V = ProfilingEventView;

    open spec fn view(&self) -> ProfilingEventView {
        ProfilingEventView {
            content_key: self.content_key@,
            cpu_events: self.cpu_events.deep_view(),
            container_id: self.container_id@,
            container_name: self.container_name@,
            pod_ip: self.pod_ip@,
            pod_name: self.pod_name@,
            workload_name: self.workload_name@,
            workload_kind: self.workload_kind@,
            namespace: self.namespace@,
            node_name: self.node_name@,
            node_ip: self.node_ip@,
            end_time: self.end_time,
            inner_calls: self.inner_calls@,
            is_sent: self.is_sent,
            is_server: self.is_server,
            java_futex_events: self.java_futex_events.deep_view(),
            pid: self.pid,
            protocol: self.protocol@,
            spans: self.spans@,
            start_time: self.start_time,
            thread_name: self.thread_name@,
            tid: self.tid,
            transaction_ids: self.transaction_ids.deep_view(),
            offset_ts: self.offset_ts,
        }
    }
}

impl DeepView for ProfilingEvent {
    type V = ProfilingEventView;

    open spec fn deep_view(&self) -> ProfilingEventView {
        self.view()
    }
}

/// One profiling bundle: a named, timestamped wrapper around the labels.
pub struct TraceProfiling {
    pub name: String,
    pub timestamp: u64,
    pub labels: ProfilingEvent,
}

#[verifier::ext_equal]
pub ghost struct TraceProfilingView {
    pub name: Seq<char>,
    pub timestamp: u64,
    pub labels: ProfilingEventView,
}

impl View for TraceProfiling {
    type V = TraceProfilingView;

    open spec fn view(&self) -> TraceProfilingView {
        TraceProfilingView { name: self.name@, timestamp: self.timestamp, labels: self.labels@ }
    }
}

impl DeepView for TraceProfiling {
    type V = TraceProfilingView;

    open spec fn deep_view(&self) -> TraceProfilingView {
        self.view()
    }
}

/// The bundle skeleton for a time range and request record, before the
/// segment's own events are filled in.
pub open spec fn profiling_base(start_time: u64, end_time: u64, te: TraceEventView) -> TraceProfilingView {
    TraceProfilingView {
        name: "camera_event_group"@,
        timestamp: start_time,
        labels: ProfilingEventView {
            content_key: te.content_key,
            cpu_events: Seq::empty(),
            container_id: te.container_id,
            container_name: te.container_name,
            pod_ip: te.pod_ip,
            pod_name: te.pod_name,
            workload_name: te.workload_name,
            workload_kind: te.workload_kind,
            namespace: te.namespace,
            node_name: te.node_name,
            node_ip: te.node_ip,
            end_time,
            inner_calls: "[]"@,
            is_sent: 0,
            is_server: te.is_server,
            java_futex_events: Seq::empty(),
            pid: 0,
            protocol: te.protocol,
            spans: "[]"@,
            start_time,
            thread_name: Seq::empty(),
            tid: 0,
            transaction_ids: Seq::empty(),
            offset_ts: te.offset_ts,
        },
    }
}

impl TraceProfiling {
    pub fn new(start_time: u64, end_time: u64, event: &TraceEvent) -> (r: Self)
        ensures
            r@ == profiling_base(start_time, end_time, event@),
    {
        let r = TraceProfiling {
            name: "camera_event_group".to_owned(),
            timestamp: start_time,
            labels: ProfilingEvent {
                content_key: event.content_key.clone(),
                cpu_events: Vec::new(),
                container_id: event.container_id.clone(),
                container_name: event.container_name.clone(),
                pod_ip: event.pod_ip.clone(),
                pod_name: event.pod_name.clone(),
                workload_name: event.workload_name.clone(),
                workload_kind: event.workload_kind.clone(),
                namespace: event.namespace.clone(),
                node_name: event.node_name.clone(),
                node_ip: event.node_ip.clone(),
                end_time,
                inner_calls: "[]".to_owned(),
                is_sent: 0,
                is_server: event.is_server,
                java_futex_events: Vec::new(),
                pid: 0,
                protocol: event.protocol.clone(),
                spans: "[]".to_owned(),
                start_time,
                thread_name: String::new(),
                tid: 0,
                transaction_ids: Vec::new(),
                offset_ts: event.offset_ts,
            },
        };
        proof {
            assert(r@.labels.cpu_events =~= Seq::<CpuEventView>::empty());
            assert(r@.labels.java_futex_events =~= Seq::<JavaFutexEventView>::empty());
            assert(r@.labels.transaction_ids =~= Seq::<TransactionIdEventView>::empty());
            assert(r@ =~= profiling_base(start_time, end_time, event@));
        }
        r
    }
}

/// The bundle one segment exports: the skeleton for the segment's own
/// time range, carrying the segment's events, thread identity, and its
/// pre-export dirty flag.
pub open spec fn bundle_of(
    seg: SegmentView,
    pid: u32,
    tid: u32,
    tname: Seq<char>,
    te: TraceEventView,
) -> TraceProfilingView {
    let base = profiling_base(seg.start_time, seg.end_time, te);
    TraceProfilingView {
        labels: ProfilingEventView {
            cpu_events: seg.cpu_events,
            is_sent: seg.is_send,
            java_futex_events: seg.java_futex_event,
            pid,
            thread_name: tname,
            tid,
            transaction_ids: seg.transaction_id_event,
            ..base.labels
        },
        ..base
    }
}

impl Segment {
    /// Builds the export bundle for this segment under `trace_event`.
    pub fn to_data_group(&self, pid: u32, tid: u32, thread_name: &str, trace_event: &TraceEvent) -> (r:
        TraceProfiling)
        ensures
            r@ == bundle_of(self@, pid, tid, thread_name@, trace_event@),
    {
        let copy = self.clone();
        let mut profiling = TraceProfiling::new(self.start_time, self.end_time, trace_event);
        profiling.labels.cpu_events = copy.cpu_events;
        profiling.labels.is_sent = self.is_send;
        profiling.labels.java_futex_events = copy.java_futex_event;
        profiling.labels.pid = pid;
        profiling.labels.thread_name = thread_name.to_owned();
        profiling.labels.tid = tid;
        profiling.labels.transaction_ids = copy.transaction_id_event;
        proof {
            assert(profiling@ =~= bundle_of(self@, pid, tid, thread_name@, trace_event@));
        }
        profiling
    }
}

/// One exported metric: a name and its value.
pub struct Metric {
    pub name: String,
    pub value: u64,
}

#[verifier::ext_equal]
pub ghost struct MetricView {
    pub name: Seq<char>,
    pub value: u64,
}

impl View for Metric {
    type V = MetricView;

    open spec fn view(&self) -> MetricView {
        MetricView { name: self.name@, value: self.value }
    }
}

impl DeepView for Metric {
    type V = MetricView;

    open spec fn deep_view(&self) -> MetricView {
        self.view()
    }
}

impl Metric {
    pub fn new(name: String, value: u64) -> (r: Self)
        ensures
            r@ == (MetricView { name: name@, value }),
    {
        Metric { name, value }
    }
}

/// A completed trace record as exported: the record itself plus its
/// total-time metric.
pub struct Trace {
    pub name: String,
    pub timestamp: u64,
    pub metrics: Vec<Metric>,
    pub labels: TraceEvent,
}

#[verifier::ext_equal]
pub ghost struct TraceView {
    pub name: Seq<char>,
    pub timestamp: u64,
    pub metrics: Seq<MetricView>,
    pub labels: TraceEventView,
}

impl View for Trace {
    type V = TraceView;

    open spec fn view(&self) -> TraceView {
        TraceView {
            name: self.name@,
            timestamp: self.timestamp,
            metrics: self.metrics.deep_view(),
            labels: self.labels@,
        }
    }
}

impl DeepView for Trace {
    type V = TraceView;

    open spec fn deep_view(&self) -> TraceView {
        self.view()
    }
}

/// The exported form of a completed record: stamped with the request's
/// start time and carrying its duration as the one metric.
pub open spec fn trace_of(te: TraceEventView) -> TraceView {
    TraceView {
        name: "span_trace_group"@,
        timestamp: (te.end_time - te.duration) as u64,
        metrics: seq![MetricView { name: "request_total_time"@, value: te.duration }],
        labels: te,
    }
}

impl Trace {
    pub fn new(event: TraceEvent) -> (r: Self)
        requires
            event.duration <= event.end_time,
        ensures
            r@ == trace_of(event@),
    {
        let timestamp = event.end_time - event.duration;
        let mut metrics: Vec<Metric> = Vec::new();
        metrics.push(Metric::new("request_total_time".to_owned(), event.duration));
        let r = Trace { name: "span_trace_group".to_owned(), timestamp, metrics, labels: event };
        proof {
            assert(r@.metrics =~= trace_of(r.labels@).metrics);
            assert(r@ =~= trace_of(r.labels@));
        }
        r
    }
}

} // verus!
