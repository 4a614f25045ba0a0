//! Request-trace records: the pending entry kept between "enter" and
//! "exit", the completed record handed to the sampler, and the small
//! signal sent toward the CPU store for metric aggregation.

use vstd::prelude::*;

use crate::k8scache::K8sPodInfo;

verus! {

/// One half of a request observed on a thread: an "enter" carries the
/// start timestamp and URL, an "exit" carries the end timestamp and the
/// APM fields merged in by [`ThreadTraceIdEvent::merge_response`].
pub struct ThreadTraceIdEvent {
    pub timestamp: u64,
    pub end_time: u64,
    pub apm_type: String,
    pub parent_span_id: String,
    pub span_id: String,
    pub url: String,
    /// 0: business thread, 1: async, 2: I/O.
    pub thread_type: u64,
    pub error: u64,
    pub tid: u32,
    pub container_id: String,
}

#[verifier::ext_equal]
pub ghost struct ThreadTraceIdEventView {
    pub timestamp: u64,
    pub end_time: u64,
    pub apm_type: Seq<char>,
    pub parent_span_id: Seq<char>,
    pub span_id: Seq<char>,
    pub url: Seq<char>,
    pub thread_type: u64,
    pub error: u64,
    pub tid: u32,
    pub container_id: Seq<char>,
}

impl View for ThreadTraceIdEvent {
    type V = ThreadTraceIdEventView;

    open spec fn view(&self) -> ThreadTraceIdEventView {
        ThreadTraceIdEventView {
            timestamp: self.timestamp,
            end_time: self.end_time,
            apm_type: self.apm_type@,
            parent_span_id: self.parent_span_id@,
            span_id: self.span_id@,
            url: self.url@,
            thread_type: self.thread_type,
            error: self.error,
            tid: self.tid,
            container_id: self.container_id@,
        }
    }
}

impl DeepView for ThreadTraceIdEvent {
    type V = ThreadTraceIdEventView;

    open spec fn deep_view(&self) -> ThreadTraceIdEventView {
        self.view()
    }
}

impl Clone for ThreadTraceIdEvent {
    fn clone(&self) -> (res: Self)
        ensures
            res@ == self@,
    {
        ThreadTraceIdEvent {
            timestamp: self.timestamp,
            end_time: self.end_time,
            apm_type: self.apm_type.clone(),
            parent_span_id: self.parent_span_id.clone(),
            span_id: self.span_id.clone(),
            url: self.url.clone(),
            thread_type: self.thread_type,
            error: self.error,
            tid: self.tid,
            container_id: self.container_id.clone(),
        }
    }
}

/// The view of an event whose every field is empty or zero.
pub open spec fn thread_event_zero(e: ThreadTraceIdEventView) -> bool {
    &&& e.timestamp == 0
    &&& e.end_time == 0
    &&& e.apm_type.len() == 0
    &&& e.parent_span_id.len() == 0
    &&& e.span_id.len() == 0
    &&& e.url.len() == 0
    &&& e.thread_type == 0
    &&& e.error == 0
    &&& e.tid == 0
    &&& e.container_id.len() == 0
}

impl Default for ThreadTraceIdEvent {
    fn default() -> (res: Self)
        ensures
            thread_event_zero(res@),
    {
        ThreadTraceIdEvent {
            timestamp: 0,
            end_time: 0,
            apm_type: String::new(),
            parent_span_id: String::new(),
            span_id: String::new(),
            url: String::new(),
            thread_type: 0,
            error: 0,
            tid: 0,
            container_id: String::new(),
        }
    }
}

/// The exit fields of `new_evt` merged into a pending enter event.
pub open spec fn merged_response(
    base: ThreadTraceIdEventView,
    new_evt: ThreadTraceIdEventView,
) -> ThreadTraceIdEventView {
    ThreadTraceIdEventView {
        end_time: new_evt.timestamp,
        apm_type: new_evt.apm_type,
        thread_type: new_evt.thread_type,
        error: new_evt.error,
        span_id: new_evt.span_id,
        parent_span_id: new_evt.parent_span_id,
        tid: new_evt.tid,
        container_id: new_evt.container_id,
        ..base
    }
}

impl ThreadTraceIdEvent {
    /// Folds a matching exit event into this enter event: the exit's
    /// timestamp becomes the end time and its APM fields replace the
    /// placeholders; the enter timestamp and URL stay.
    pub fn merge_response(&mut self, new_evt: ThreadTraceIdEvent)
        ensures
            final(self)@ == merged_response(old(self)@, new_evt@),
    {
        self.end_time = new_evt.timestamp;
        self.apm_type = new_evt.apm_type;
        self.thread_type = new_evt.thread_type;
        self.error = new_evt.error;
        self.span_id = new_evt.span_id;
        self.parent_span_id = new_evt.parent_span_id;
        self.tid = new_evt.tid;
        self.container_id = new_evt.container_id;
    }

    /// Wall time between enter and exit.
    pub fn get_duration(&self) -> (r: u64)
        requires
            self.timestamp <= self.end_time,
        ensures
            r == self@.end_time - self@.timestamp,
    {
        self.end_time - self.timestamp
    }

    /// Only a synchronous business thread resolves a request.
    pub fn is_business_thread(&self) -> (r: bool)
        ensures
            r == (self@.thread_type == 0),
    {
        self.thread_type == 0
    }
}

/// A pending request: the stored enter event plus its sampling flag and
/// remaining sweep-cycle budget.
pub struct TraceIdEvents {
    pub pid: u32,
    pub trace_id: String,
    pub is_sampled: bool,
    pub check_times: i32,
    pub event: ThreadTraceIdEvent,
}

#[verifier::ext_equal]
pub ghost struct TraceIdEventsView {
    pub pid: u32,
    pub trace_id: Seq<char>,
    pub is_sampled: bool,
    pub check_times: i32,
    pub event: ThreadTraceIdEventView,
}

impl View for TraceIdEvents {
    type V = TraceIdEventsView;

    open spec fn view(&self) -> TraceIdEventsView {
        TraceIdEventsView {
            pid: self.pid,
            trace_id: self.trace_id@,
            is_sampled: self.is_sampled,
            check_times: self.check_times,
            event: self.event@,
        }
    }
}

impl DeepView for TraceIdEvents {
    type V = TraceIdEventsView;

    open spec fn deep_view(&self) -> TraceIdEventsView {
        self.view()
    }
}

impl TraceIdEvents {
    pub fn new(
        pid: u32,
        trace_id: String,
        is_sampled: bool,
        check_times: i32,
        event: ThreadTraceIdEvent,
    ) -> (r: Self)
        ensures
            r@ == (TraceIdEventsView {
                pid,
                trace_id: trace_id@,
                is_sampled,
                check_times,
                event: event@,
            }),
    {
        TraceIdEvents { pid, trace_id, is_sampled, check_times, event }
    }

    /// Burns one sweep cycle; true once the budget has gone below zero,
    /// so an entry created with budget N survives exactly N sweeps.
    pub fn is_expired(&mut self) -> (r: bool)
        requires
            old(self).check_times > i32::MIN,
        ensures
            final(self)@ == (TraceIdEventsView {
                check_times: (old(self)@.check_times - 1) as i32,
                ..old(self)@
            }),
            r == (old(self)@.check_times - 1 < 0),
    {
        self.check_times = self.check_times - 1;
        self.check_times < 0
    }

    /// A repeated enter refreshes the URL and can only raise the
    /// sampling flag, never clear it.
    pub fn update_trace_event(&mut self, enter_event: ThreadTraceIdEvent, is_sampled: bool)
        ensures
            final(self)@ == (TraceIdEventsView {
                is_sampled: old(self)@.is_sampled || is_sampled,
                event: ThreadTraceIdEventView { url: enter_event@.url, ..old(self)@.event },
                ..old(self)@
            }),
    {
        if is_sampled && !self.is_sampled {
            self.is_sampled = true;
        }
        self.event.url = enter_event.url;
    }

    pub fn get_trace_id(&self) -> (r: String)
        ensures
            r@ == self@.trace_id,
    {
        self.trace_id.clone()
    }
}

/// A request to aggregate CPU time for one thread over one time range,
/// batched toward the CPU store.
pub struct SignalEvent {
    pub pid: u32,
    pub tid: u32,
    pub content_key: String,
    pub container_id: String,
    pub start_time: u64,
    pub end_time: u64,
}

#[verifier::ext_equal]
pub ghost struct SignalEventView {
    pub pid: u32,
    pub tid: u32,
    pub content_key: Seq<char>,
    pub container_id: Seq<char>,
    pub start_time: u64,
    pub end_time: u64,
}

impl View for SignalEvent {
    type V = SignalEventView;

    open spec fn view(&self) -> SignalEventView {
        SignalEventView {
            pid: self.pid,
            tid: self.tid,
            content_key: self.content_key@,
            container_id: self.container_id@,
            start_time: self.start_time,
            end_time: self.end_time,
        }
    }
}

impl DeepView for SignalEvent {
    type V = SignalEventView;

    open spec fn deep_view(&self) -> SignalEventView {
        self.view()
    }
}

impl Clone for SignalEvent {
    fn clone(&self) -> (res: Self)
        ensures
            res@ == self@,
    {
        SignalEvent {
            pid: self.pid,
            tid: self.tid,
            content_key: self.content_key.clone(),
            container_id: self.container_id.clone(),
            start_time: self.start_time,
            end_time: self.end_time,
        }
    }
}

impl SignalEvent {
    pub fn new(evt: &TraceEvent) -> (r: Self)
        requires
            evt.duration <= evt.end_time,
        ensures
            r@ == (SignalEventView {
                pid: evt@.pid,
                tid: evt@.tid,
                content_key: evt@.content_key,
                container_id: evt@.container_id,
                start_time: (evt@.end_time - evt@.duration) as u64,
                end_time: evt@.end_time,
            }),
    {
        SignalEvent {
            pid: evt.pid,
            tid: evt.tid,
            content_key: evt.content_key.clone(),
            container_id: evt.container_id.clone(),
            start_time: evt.end_time - evt.duration,
            end_time: evt.end_time,
        }
    }
}

/// A completed, metadata-enriched request record.
///
/// `p90` carries the percentile threshold, in nanoseconds, that the
/// sampler compared the record against (zero until one is known).
pub struct TraceEvent {
    pub pid: u32,
    pub tid: u32,
    pub protocol: String,
    pub content_key: String,
    pub http_url: String,
    pub is_slow: bool,
    pub is_server: bool,
    pub is_error: bool,
    pub is_profiled: bool,
    pub is_normal: bool,
    pub p90: u64,
    pub trace_id: String,
    pub apm_type: String,
    pub apm_span_id: String,
    pub container_id: String,
    pub container_name: String,
    pub workload_name: String,
    pub workload_kind: String,
    pub pod_ip: String,
    pub pod_name: String,
    pub namespace: String,
    pub duration: u64,
    pub end_time: u64,
    pub node_name: String,
    pub node_ip: String,
    pub offset_ts: i64,
}

#[verifier::ext_equal]
pub ghost struct TraceEventView {
    pub pid: u32,
    pub tid: u32,
    pub protocol: Seq<char>,
    pub content_key: Seq<char>,
    pub http_url: Seq<char>,
    pub is_slow: bool,
    pub is_server: bool,
    pub is_error: bool,
    pub is_profiled: bool,
    pub is_normal: bool,
    pub p90: u64,
    pub trace_id: Seq<char>,
    pub apm_type: Seq<char>,
    pub apm_span_id: Seq<char>,
    pub container_id: Seq<char>,
    pub container_name: Seq<char>,
    pub workload_name: Seq<char>,
    pub workload_kind: Seq<char>,
    pub pod_ip: Seq<char>,
    pub pod_name: Seq<char>,
    pub namespace: Seq<char>,
    pub duration: u64,
    pub end_time: u64,
    pub node_name: Seq<char>,
    pub node_ip: Seq<char>,
    pub offset_ts: i64,
}

impl View for TraceEvent {
    type V = TraceEventView;

    open spec fn view(&self) -> TraceEventView {
        TraceEventView {
            pid: self.pid,
            tid: self.tid,
            protocol: self.protocol@,
            content_key: self.content_key@,
            http_url: self.http_url@,
            is_slow: self.is_slow,
            is_server: self.is_server,
            is_error: self.is_error,
            is_profiled: self.is_profiled,
            is_normal: self.is_normal,
            p90: self.p90,
            trace_id: self.trace_id@,
            apm_type: self.apm_type@,
            apm_span_id: self.apm_span_id@,
            container_id: self.container_id@,
            container_name: self.container_name@,
            workload_name: self.workload_name@,
            workload_kind: self.workload_kind@,
            pod_ip: self.pod_ip@,
            pod_name: self.pod_name@,
            namespace: self.namespace@,
            duration: self.duration,
            end_time: self.end_time,
            node_name: self.node_name@,
            node_ip: self.node_ip@,
            offset_ts: self.offset_ts,
        }
    }
}

impl DeepView for TraceEvent {
    type V = TraceEventView;

    open spec fn deep_view(&self) -> TraceEventView {
        self.view()
    }
}

impl Clone for TraceEvent {
    fn clone(&self) -> (res: Self)
        ensures
            res@ == self@,
    {
        TraceEvent {
            pid: self.pid,
            tid: self.tid,
            protocol: self.protocol.clone(),
            content_key: self.content_key.clone(),
            http_url: self.http_url.clone(),
            is_slow: self.is_slow,
            is_server: self.is_server,
            is_error: self.is_error,
            is_profiled: self.is_profiled,
            is_normal: self.is_normal,
            p90: self.p90,
            trace_id: self.trace_id.clone(),
            apm_type: self.apm_type.clone(),
            apm_span_id: self.apm_span_id.clone(),
            container_id: self.container_id.clone(),
            container_name: self.container_name.clone(),
            workload_name: self.workload_name.clone(),
            workload_kind: self.workload_kind.clone(),
            pod_ip: self.pod_ip.clone(),
            pod_name: self.pod_name.clone(),
            namespace: self.namespace.clone(),
            duration: self.duration,
            end_time: self.end_time,
            node_name: self.node_name.clone(),
            node_ip: self.node_ip.clone(),
            offset_ts: self.offset_ts,
        }
    }
}

/// The record built when a pending trace resolves: the merged thread
/// event plus pod metadata, with duration and the slow flag derived.
pub open spec fn trace_event_of(
    pid: u32,
    trace_id: Seq<char>,
    event: ThreadTraceIdEventView,
    slow_threshold: u64,
    node_name: Seq<char>,
    node_ip: Seq<char>,
    pod: crate::k8scache::K8sPodInfoView,
    offset_ts: i64,
) -> TraceEventView {
    TraceEventView {
        pid,
        tid: event.tid,
        protocol: "http"@,
        content_key: event.url,
        http_url: event.url,
        is_slow: event.end_time - event.timestamp > slow_threshold,
        is_server: true,
        is_error: event.error > 0,
        is_profiled: false,
        is_normal: false,
        p90: 0,
        trace_id,
        apm_type: event.apm_type,
        apm_span_id: event.span_id,
        container_id: event.container_id,
        container_name: pod.container_name,
        workload_name: pod.workload_name,
        workload_kind: pod.workload_kind,
        pod_ip: pod.pod_ip,
        pod_name: pod.pod_name,
        namespace: pod.namespace,
        duration: (event.end_time - event.timestamp) as u64,
        end_time: event.end_time,
        node_name,
        node_ip,
        offset_ts,
    }
}

impl TraceEvent {
    /// `offset_ts` is the clock correction the surrounding program read
    /// from its offset provider when the record was built.
    pub fn new(
        pid: u32,
        trace_id: String,
        event: ThreadTraceIdEvent,
        slow_threshold: u64,
        node_name: String,
        node_ip: String,
        k8s_pod_info: K8sPodInfo,
        offset_ts: i64,
    ) -> (r: Self)
        requires
            event.timestamp <= event.end_time,
        ensures
            r@ == trace_event_of(
                pid,
                trace_id@,
                event@,
                slow_threshold,
                node_name@,
                node_ip@,
                k8s_pod_info@,
                offset_ts,
            ),
    {
        let duration = event.end_time - event.timestamp;
        TraceEvent {
            apm_span_id: event.span_id,
            container_id: event.container_id,
            content_key: event.url.clone(),
            http_url: event.url,
            duration,
            end_time: event.end_time,
            pid,
            protocol: "http".to_owned(),
            is_error: event.error > 0,
            is_slow: duration > slow_threshold,
            is_server: true,
            is_profiled: false,
            is_normal: false,
            p90: 0,
            tid: event.tid,
            trace_id,
            apm_type: event.apm_type,
            container_name: k8s_pod_info.container_name,
            workload_name: k8s_pod_info.workload_name,
            workload_kind: k8s_pod_info.workload_kind,
            pod_ip: k8s_pod_info.pod_ip,
            pod_name: k8s_pod_info.pod_name,
            namespace: k8s_pod_info.namespace,
            node_name,
            node_ip,
            offset_ts,
        }
    }
}

/// One metric attribute: a name and its rendered value.
pub struct LabelPair {
    pub key: String,
    pub value: String,
}

#[verifier::ext_equal]
pub ghost struct LabelPairView {
    pub key: Seq<char>,
    pub value: Seq<char>,
}

impl View for LabelPair {
    type V = LabelPairView;

    open spec fn view(&self) -> LabelPairView {
        LabelPairView { key: self.key@, value: self.value@ }
    }
}

impl DeepView for LabelPair {
    type V = LabelPairView;

    open spec fn deep_view(&self) -> LabelPairView {
        self.view()
    }
}

impl TraceEvent {
    /// The attribute set attached to the request-duration histogram.
    pub fn to_key_value(&self) -> (r: Vec<LabelPair>)
        ensures
            r.deep_view() == trace_labels(self@),
    {
        let mut r: Vec<LabelPair> = Vec::new();
        r.push(LabelPair { key: "pid".to_owned(), value: u32_to_string(self.pid) });
        r.push(LabelPair { key: "content_key".to_owned(), value: self.content_key.clone() });
        r.push(LabelPair { key: "is_error".to_owned(), value: bool_to_string(self.is_error) });
        r.push(LabelPair { key: "container_id".to_owned(), value: self.container_id.clone() });
        r.push(
            LabelPair { key: "container_name".to_owned(), value: self.container_name.clone() },
        );
        r.push(LabelPair { key: "workload_name".to_owned(), value: self.workload_name.clone() });
        r.push(LabelPair { key: "workload_kind".to_owned(), value: self.workload_kind.clone() });
        r.push(LabelPair { key: "pod_ip".to_owned(), value: self.pod_ip.clone() });
        r.push(LabelPair { key: "pod_name".to_owned(), value: self.pod_name.clone() });
        r.push(LabelPair { key: "node_name".to_owned(), value: self.node_name.clone() });
        r.push(LabelPair { key: "namespace".to_owned(), value: self.namespace.clone() });
        proof {
            assert(r.deep_view() =~= trace_labels(self@));
        }
        r
    }
}

/// The attribute set a completed record exports with its duration sample.
pub open spec fn trace_labels(te: TraceEventView) -> Seq<LabelPairView> {
    seq![
        LabelPairView { key: "pid"@, value: spec_u32_dec(te.pid as int) },
        LabelPairView { key: "content_key"@, value: te.content_key },
        LabelPairView {
            key: "is_error"@,
            value: if te.is_error {
                "true"@
            } else {
                "false"@
            },
        },
        LabelPairView { key: "container_id"@, value: te.container_id },
        LabelPairView { key: "container_name"@, value: te.container_name },
        LabelPairView { key: "workload_name"@, value: te.workload_name },
        LabelPairView { key: "workload_kind"@, value: te.workload_kind },
        LabelPairView { key: "pod_ip"@, value: te.pod_ip },
        LabelPairView { key: "pod_name"@, value: te.pod_name },
        LabelPairView { key: "node_name"@, value: te.node_name },
        LabelPairView { key: "namespace"@, value: te.namespace },
    ]
}

/// The character of one decimal digit.
pub open spec fn dec_digit(d: int) -> char {
    if d == 0 {
        '0'
    } else if d == 1 {
        '1'
    } else if d == 2 {
        '2'
    } else if d == 3 {
        '3'
    } else if d == 4 {
        '4'
    } else if d == 5 {
        '5'
    } else if d == 6 {
        '6'
    } else if d == 7 {
        '7'
    } else if d == 8 {
        '8'
    } else {
        '9'
    }
}

/// The decimal text of a non-negative number: most significant digit
/// first, no sign, no leading zeroes.
pub open spec fn spec_u32_dec(n: int) -> Seq<char>
    decreases n,
{
    if n < 10 {
        seq![dec_digit(n)]
    } else {
        spec_u32_dec(n / 10).push(dec_digit(n % 10))
    }
}

/// Relies on `u32`'s `Display` through `ToString`: renders the number in
/// decimal, most significant digit first, without sign or leading zeroes.
#[verifier::external_body]
pub fn u32_to_string(v: u32) -> (r: String)
    ensures
        r@ == spec_u32_dec(v as int),
{
    v.to_string()
}

pub fn bool_to_string(v: bool) -> (r: String)
    ensures
        v ==> r@ == "true"@,
        !v ==> r@ == "false"@,
{
    if v {
        "true".to_owned()
    } else {
        "false".to_owned()
    }
}

} // verus!
