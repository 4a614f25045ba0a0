//! The trace correlator: pairs "enter" and "exit" events keyed by
//! (traceId, pid, tid) into completed request records.
//!
//! An enter creates or refreshes a pending entry; the matching exit on a
//! business thread consumes it and emits the record.  A periodic sweep
//! burns one cycle of every pending entry's budget and drops the ones
//! that ran out, so an unmatched request cannot linger.

use vstd::prelude::*;

use crate::config::TraceIdAnalyzerCfg;
use crate::k8scache::K8sMetaDataCache;
use crate::traceid_model::{
    merged_response, trace_event_of, LabelPair, SignalEvent, SignalEventView, ThreadTraceIdEvent,
    ThreadTraceIdEventView, TraceEvent, TraceEventView, TraceIdEvents, TraceIdEventsView,
};

verus! {

/// One pending request, under its full key.
pub struct PendingTrace {
    pub trace_id: String,
    pub pid: u32,
    pub tid: u32,
    pub events: TraceIdEvents,
}

#[verifier::ext_equal]
pub ghost struct PendingTraceView {
    pub trace_id: Seq<char>,
    pub pid: u32,
    pub tid: u32,
    pub events: TraceIdEventsView,
}

impl View for PendingTrace {
    type V = PendingTraceView;

    open spec fn view(&self) -> PendingTraceView {
        PendingTraceView {
            trace_id: self.trace_id@,
            pid: self.pid,
            tid: self.tid,
            events: self.events@,
        }
    }
}

impl DeepView for PendingTrace {
    type V = PendingTraceView;

    open spec fn deep_view(&self) -> PendingTraceView {
        self.view()
    }
}

pub open spec fn pend_key(p: PendingTraceView, trace_id: Seq<char>, pid: u32, tid: u32) -> bool {
    p.trace_id == trace_id && p.pid == pid && p.tid == tid
}

pub open spec fn has_pend(s: Seq<PendingTraceView>, trace_id: Seq<char>, pid: u32, tid: u32) -> bool {
    exists|i: int| 0 <= i < s.len() && pend_key(#[trigger] s[i], trace_id, pid, tid)
}

pub open spec fn pend_idx(s: Seq<PendingTraceView>, trace_id: Seq<char>, pid: u32, tid: u32) -> int {
    choose|i: int| 0 <= i < s.len() && pend_key(#[trigger] s[i], trace_id, pid, tid)
}

/// No two pending entries share a key.
pub open spec fn pend_keys_unique(s: Seq<PendingTraceView>) -> bool {
    forall|i: int, j: int|
        0 <= i < s.len() && 0 <= j < s.len() && i != j ==> !pend_key(
            #[trigger] s[i],
            (#[trigger] s[j]).trace_id,
            s[j].pid,
            s[j].tid,
        )
}

/// Under unique keys, any index holding a key is the chosen one.
pub proof fn lemma_pend_idx_agrees(
    s: Seq<PendingTraceView>,
    trace_id: Seq<char>,
    pid: u32,
    tid: u32,
    i: int,
)
    requires
        pend_keys_unique(s),
        0 <= i < s.len(),
        pend_key(s[i], trace_id, pid, tid),
    ensures
        has_pend(s, trace_id, pid, tid),
        pend_idx(s, trace_id, pid, tid) == i,
{
    assert(has_pend(s, trace_id, pid, tid));
    let j = pend_idx(s, trace_id, pid, tid);
    if i != j {
        assert(pend_key(s[i], s[j].trace_id, s[j].pid, s[j].tid));
        assert(false);
    }
}

/// A repeated enter folded into an existing entry: the URL is replaced
/// and the sampling flag can only rise.
pub open spec fn refreshed_entry(
    p: PendingTraceView,
    ev: ThreadTraceIdEventView,
    is_sampled: bool,
) -> PendingTraceView {
    PendingTraceView {
        events: TraceIdEventsView {
            is_sampled: p.events.is_sampled || is_sampled,
            event: ThreadTraceIdEventView { url: ev.url, ..p.events.event },
            ..p.events
        },
        ..p
    }
}

/// The entry a first enter creates.
pub open spec fn new_entry(
    trace_id: Seq<char>,
    pid: u32,
    tid: u32,
    ev: ThreadTraceIdEventView,
    is_sampled: bool,
    wait: i32,
) -> PendingTraceView {
    PendingTraceView {
        trace_id,
        pid,
        tid,
        events: TraceIdEventsView { pid, trace_id, is_sampled, check_times: wait, event: ev },
    }
}

/// The pending table after an enter event.
pub open spec fn spec_process_request(
    s: Seq<PendingTraceView>,
    trace_id: Seq<char>,
    pid: u32,
    tid: u32,
    ev: ThreadTraceIdEventView,
    is_sampled: bool,
    wait: i32,
) -> Seq<PendingTraceView> {
    if has_pend(s, trace_id, pid, tid) {
        let i = pend_idx(s, trace_id, pid, tid);
        s.update(i, refreshed_entry(s[i], ev, is_sampled))
    } else {
        s.push(new_entry(trace_id, pid, tid, ev, is_sampled, wait))
    }
}

/// Whether an exit event resolves the keyed entry: the entry must exist,
/// the exit must come from a business thread, and the exit may not sit
/// before the stored enter.
pub open spec fn resolves(
    s: Seq<PendingTraceView>,
    trace_id: Seq<char>,
    pid: u32,
    tid: u32,
    ev: ThreadTraceIdEventView,
) -> bool {
    &&& has_pend(s, trace_id, pid, tid)
    &&& ev.thread_type == 0
    &&& s[pend_idx(s, trace_id, pid, tid)].events.event.timestamp <= ev.timestamp
}

/// The pending table after an exit event: only a resolving exit removes
/// its entry.
pub open spec fn spec_process_response(
    s: Seq<PendingTraceView>,
    trace_id: Seq<char>,
    pid: u32,
    tid: u32,
    ev: ThreadTraceIdEventView,
) -> Seq<PendingTraceView> {
    if resolves(s, trace_id, pid, tid, ev) {
        s.remove(pend_idx(s, trace_id, pid, tid))
    } else {
        s
    }
}

/// The record a resolving exit emits.
pub open spec fn spec_response_record(
    s: Seq<PendingTraceView>,
    trace_id: Seq<char>,
    pid: u32,
    tid: u32,
    ev: ThreadTraceIdEventView,
    slow_threshold: u64,
    node_name: Seq<char>,
    node_ip: Seq<char>,
    offset_ts: i64,
) -> TraceEventView {
    let p = s[pend_idx(s, trace_id, pid, tid)];
    trace_event_of(
        pid,
        trace_id,
        merged_response(p.events.event, ev),
        slow_threshold,
        node_name,
        node_ip,
        crate::k8scache::K8sPodInfoView {
            container_name: Seq::empty(),
            pod_ip: Seq::empty(),
            pod_name: Seq::empty(),
            workload_kind: Seq::empty(),
            workload_name: Seq::empty(),
            namespace: Seq::empty(),
        },
        offset_ts,
    )
}

/// One sweep over the pending table: every entry loses one cycle of its
/// budget and the ones that ran out leave, in order.
pub open spec fn spec_expire_sweep(s: Seq<PendingTraceView>) -> Seq<PendingTraceView>
    decreases s.len(),
{
    if s.len() == 0 {
        Seq::empty()
    } else {
        let p = s[0];
        let dec = PendingTraceView {
            events: TraceIdEventsView {
                check_times: (p.events.check_times - 1) as i32,
                ..p.events
            },
            ..p
        };
        (if p.events.check_times - 1 >= 0 {
            seq![dec]
        } else {
            Seq::empty()
        }) + spec_expire_sweep(s.skip(1))
    }
}

/// What `String::from_utf8_lossy` decodes a byte payload to; the result
/// depends on the bytes alone.
pub uninterp spec fn utf8_lossy(bytes: Seq<u8>) -> Seq<char>;

/// Relies on `String::from_utf8_lossy`: decodes UTF-8, substituting the
/// replacement character for invalid sequences; an empty payload decodes
/// to empty text.
#[verifier::external_body]
fn utf8_lossy_string(val: &[u8]) -> (r: String)
    ensures
        r@ == utf8_lossy(val@),
        val@.len() == 0 ==> r@.len() == 0,
{
    String::from_utf8_lossy(val).to_string()
}

/// A byte payload decoded as UTF-8 text; an absent payload is empty text.
pub fn read_string_value(val: Option<&[u8]>) -> (r: String)
    ensures
        val matches Some(bytes) ==> r@ == utf8_lossy(bytes@),
        val is None ==> r@.len() == 0,
{
    match val {
        Some(bytes) => utf8_lossy_string(bytes),
        None => String::new(),
    }
}

/// Decimal parse with an accumulator: a non-digit or a value past the
/// largest representable one gives nothing.
pub open spec fn spec_parse_digits(s: Seq<char>, i: int, acc: u64) -> Option<u64>
    decreases s.len() - i,
{
    if i < 0 || i >= s.len() {
        Some(acc)
    } else {
        let c = s[i];
        if '0' <= c <= '9' {
            let d = (c as int - '0' as int) as u64;
            if acc > (u64::MAX - d) / 10 {
                None
            } else {
                spec_parse_digits(s, i + 1, (acc * 10 + d) as u64)
            }
        } else {
            None
        }
    }
}

/// The number a decimal text denotes, if it is one.
pub open spec fn spec_parse_u64(s: Seq<char>) -> Option<u64> {
    if s.len() == 0 {
        None
    } else {
        spec_parse_digits(s, 0, 0)
    }
}

/// A byte payload holding a decimal number, decoded and parsed; malformed
/// payloads give nothing instead of failing.
pub fn read_str_int_value(val: Option<&[u8]>) -> (r: Option<u64>)
    ensures
        val matches Some(bytes) ==> r == spec_parse_u64(utf8_lossy(bytes@)),
        val is None ==> r is None,
{
    let s = match val {
        Some(bytes) => utf8_lossy_string(bytes),
        None => {
            return None;
        },
    };
    parse_u64_dec(&s)
}

/// Parses decimal text; exactly [`spec_parse_u64`].
pub fn parse_u64_dec(s: &String) -> (r: Option<u64>)
    ensures
        r == spec_parse_u64(s@),
{
    let n = s.as_str().unicode_len();
    if n == 0 {
        return None;
    }
    let ghost cs = s@;
    let mut acc: u64 = 0;
    let mut i: usize = 0;
    while i < n
        invariant
            i <= n,
            n == cs.len(),
            cs == s@,
            spec_parse_digits(cs, i as int, acc) == spec_parse_digits(cs, 0, 0),
        decreases n - i,
    {
        let c = s.as_str().get_char(i);
        if c < '0' || c > '9' {
            return None;
        }
        let d = (c as u32 - '0' as u32) as u64;
        if acc > (u64::MAX - d) / 10 {
            return None;
        }
        acc = acc * 10 + d;
        i = i + 1;
    }
    Some(acc)
}

/// The trace correlator.
pub struct TraceIdAnalyzer {
    pub java_traces: Vec<PendingTrace>,
    pub batch_metrics: Vec<SignalEvent>,
    pub open_java_trace_sampling: bool,
    /// How many sweep cycles an unmatched enter survives.
    pub java_trace_wait_second: i32,
    /// Nanoseconds; a longer request is pre-marked slow.
    pub java_trace_slow_time: u64,
    pub node_name: String,
    pub node_ip: String,
    pub k8s_cache: K8sMetaDataCache,
}

impl TraceIdAnalyzer {
    pub open spec fn pending(&self) -> Seq<PendingTraceView> {
        self.java_traces.deep_view()
    }

    pub open spec fn wf(&self) -> bool {
        &&& pend_keys_unique(self.pending())
        &&& self.java_trace_wait_second > i32::MIN
        &&& forall|i: int|
            0 <= i < self.pending().len() ==> (#[trigger] self.pending()[i]).events.check_times
                > i32::MIN
        &&& forall|i: int|
            0 <= i < self.batch_metrics@.len() ==> (#[trigger] self.batch_metrics@[i]).start_time
                <= self.batch_metrics@[i].end_time
    }

    /// `node_name` and `node_ip` identify the host; the surrounding
    /// program reads them from its environment.
    pub fn new(
        cfg: &TraceIdAnalyzerCfg,
        node_name: String,
        node_ip: String,
        k8s_cache: K8sMetaDataCache,
    ) -> (r: Self)
        requires
            cfg.java_trace_wait_second matches Some(w) ==> w > i32::MIN,
            cfg.java_trace_slow_time matches Some(t) ==> t <= 18_000_000_000_000,
        ensures
            r.wf(),
            r.pending().len() == 0,
            r.batch_metrics@.len() == 0,
            r.open_java_trace_sampling == cfg.open_java_trace_sampling,
            cfg.java_trace_wait_second matches Some(w) ==> r.java_trace_wait_second == w,
            cfg.java_trace_wait_second is None ==> r.java_trace_wait_second == 30,
            cfg.java_trace_slow_time matches Some(t) ==> r.java_trace_slow_time == t * 1000000,
            cfg.java_trace_slow_time is None ==> r.java_trace_slow_time == 500000000,
            r.node_name@ == node_name@,
            r.node_ip@ == node_ip@,
    {
        let wait = match cfg.java_trace_wait_second {
            Some(w) => w,
            None => 30,
        };
        let slow_ms = match cfg.java_trace_slow_time {
            Some(t) => t,
            None => 500,
        };
        let r = TraceIdAnalyzer {
            java_traces: Vec::new(),
            batch_metrics: Vec::new(),
            open_java_trace_sampling: cfg.open_java_trace_sampling,
            java_trace_wait_second: wait,
            java_trace_slow_time: slow_ms * 1000000,
            node_name,
            node_ip,
            k8s_cache,
        };
        proof {
            assert(r.pending() =~= Seq::<PendingTraceView>::empty());
        }
        r
    }

    fn find_pending(&self, trace_id: &String, pid: u32, tid: u32) -> (r: Option<usize>)
        requires
            self.wf(),
        ensures
            match r {
                Some(i) => i < self.pending().len() && pend_key(
                    self.pending()[i as int],
                    trace_id@,
                    pid,
                    tid,
                ) && i as int == pend_idx(self.pending(), trace_id@, pid, tid) && has_pend(
                    self.pending(),
                    trace_id@,
                    pid,
                    tid,
                ),
                None => !has_pend(self.pending(), trace_id@, pid, tid),
            },
    {
        let ghost s = self.pending();
        let mut i: usize = 0;
        while i < self.java_traces.len()
            invariant
                self.wf(),
                s == self.pending(),
                i <= s.len(),
                s.len() == self.java_traces@.len(),
                forall|m: int| 0 <= m < i ==> !pend_key(#[trigger] s[m], trace_id@, pid, tid),
            decreases s.len() - i,
        {
            let p = &self.java_traces[i];
            if p.pid == pid && p.tid == tid && p.trace_id.eq(trace_id) {
                proof {
                    assert(pend_key(s[i as int], trace_id@, pid, tid));
                    lemma_pend_idx_agrees(s, trace_id@, pid, tid, i as int);
                }
                return Some(i);
            }
            i = i + 1;
        }
        None
    }

    /// Records an enter event: a new pending entry, or a refresh of the
    /// existing one for the same key.
    pub fn process_request(
        &mut self,
        event: ThreadTraceIdEvent,
        pid: u32,
        tid: u32,
        trace_id: String,
        is_sampled: bool,
    )
        requires
            old(self).wf(),
        ensures
            final(self).wf(),
            final(self).pending() == spec_process_request(
                old(self).pending(),
                trace_id@,
                pid,
                tid,
                event@,
                is_sampled,
                old(self).java_trace_wait_second,
            ),
            final(self).batch_metrics@ == old(self).batch_metrics@,
            final(self).java_trace_wait_second == old(self).java_trace_wait_second,
            final(self).java_trace_slow_time == old(self).java_trace_slow_time,
            final(self).node_name@ == old(self).node_name@,
            final(self).node_ip@ == old(self).node_ip@,
            final(self).open_java_trace_sampling == old(self).open_java_trace_sampling,
    {
        let ghost s = self.pending();
        match self.find_pending(&trace_id, pid, tid) {
            Some(i) => {
                let ghost prev = self.java_traces@;
                let entry = &mut self.java_traces[i];
                entry.events.update_trace_event(event, is_sampled);
                proof {
                    assert forall|m: int|
                        0 <= m < self.pending().len() implies self.pending()[m]
                        == spec_process_request(
                        s,
                        trace_id@,
                        pid,
                        tid,
                        event@,
                        is_sampled,
                        self.java_trace_wait_second,
                    )[m] by {
                        assert(self.pending()[m] == self.java_traces@[m]@);
                        if m != i {
                            assert(self.java_traces@[m] == prev[m]);
                        }
                    }
                    assert(self.pending() =~= spec_process_request(
                        s,
                        trace_id@,
                        pid,
                        tid,
                        event@,
                        is_sampled,
                        self.java_trace_wait_second,
                    ));
                    assert forall|a: int, b: int|
                        0 <= a < self.pending().len() && 0 <= b < self.pending().len() && a
                            != b implies !pend_key(
                        #[trigger] self.pending()[a],
                        (#[trigger] self.pending()[b]).trace_id,
                        self.pending()[b].pid,
                        self.pending()[b].tid,
                    ) by {
                        assert(!pend_key(s[a], s[b].trace_id, s[b].pid, s[b].tid));
                    }
                }
            },
            None => {
                let wait = self.java_trace_wait_second;
                let events = TraceIdEvents::new(pid, trace_id.clone(), is_sampled, wait, event);
                let entry = PendingTrace { trace_id, pid, tid, events };
                self.java_traces.push(entry);
                proof {
                    assert(self.pending() =~= s.push(
                        new_entry(
                            self.pending()[s.len() as int].trace_id,
                            pid,
                            tid,
                            self.pending()[s.len() as int].events.event,
                            is_sampled,
                            wait,
                        ),
                    ));
                    assert forall|m: int|
                        0 <= m < self.pending().len() implies self.pending()[m]
                        == spec_process_request(
                        s,
                        trace_id@,
                        pid,
                        tid,
                        event@,
                        is_sampled,
                        wait,
                    )[m] by {
                        assert(self.pending()[m] == self.java_traces@[m]@);
                    }
                    assert(self.pending() =~= spec_process_request(
                        s,
                        trace_id@,
                        pid,
                        tid,
                        event@,
                        is_sampled,
                        wait,
                    ));
                    assert forall|a: int, b: int|
                        0 <= a < self.pending().len() && 0 <= b < self.pending().len() && a
                            != b implies !pend_key(
                        #[trigger] self.pending()[a],
                        (#[trigger] self.pending()[b]).trace_id,
                        self.pending()[b].pid,
                        self.pending()[b].tid,
                    ) by {
                        if a < s.len() && b < s.len() {
                            assert(!pend_key(s[a], s[b].trace_id, s[b].pid, s[b].tid));
                        } else if b == s.len() {
                            assert(!pend_key(s[a], trace_id@, pid, tid));
                        } else {
                            assert(!pend_key(s[b], trace_id@, pid, tid));
                        }
                    }
                }
            },
        }
    }

    /// Consumes a matching exit event on a business thread and emits the
    /// completed record; any other exit — a miss, a non-business thread,
    /// or an exit stamped before its enter — changes nothing.  The caller
    /// passes the clock-offset correction to stamp into the record.
    /// `crate::laws::lemma_correlator_idempotent` derives from this that
    /// one exit never yields two records.
    pub fn process_response(
        &mut self,
        event: ThreadTraceIdEvent,
        pid: u32,
        tid: u32,
        trace_id: String,
        offset_ts: i64,
    ) -> (r: (Option<TraceEvent>, bool))
        requires
            old(self).wf(),
        ensures
            final(self).wf(),
            final(self).pending() == spec_process_response(
                old(self).pending(),
                trace_id@,
                pid,
                tid,
                event@,
            ),
            final(self).batch_metrics@ == old(self).batch_metrics@,
            final(self).java_trace_wait_second == old(self).java_trace_wait_second,
            final(self).java_trace_slow_time == old(self).java_trace_slow_time,
            final(self).node_name@ == old(self).node_name@,
            final(self).node_ip@ == old(self).node_ip@,
            final(self).open_java_trace_sampling == old(self).open_java_trace_sampling,
            if resolves(old(self).pending(), trace_id@, pid, tid, event@) {
                r.0 matches Some(te) && te@ == spec_response_record(
                    old(self).pending(),
                    trace_id@,
                    pid,
                    tid,
                    event@,
                    old(self).java_trace_slow_time,
                    old(self).node_name@,
                    old(self).node_ip@,
                    offset_ts,
                ) && r.1 == old(self).pending()[pend_idx(
                    old(self).pending(),
                    trace_id@,
                    pid,
                    tid,
                )].events.is_sampled
            } else {
                r.0 is None && r.1 == false
            },
    {
        let ghost s = self.pending();
        let i = match self.find_pending(&trace_id, pid, tid) {
            None => {
                return (None, false);
            },
            Some(i) => i,
        };
        if !event.is_business_thread() {
            return (None, false);
        }
        if event.timestamp < self.java_traces[i].events.event.timestamp {
            return (None, false);
        }
        let ghost prev = self.java_traces@;
        let entry = self.java_traces.remove(i);
        proof {
            assert forall|m: int|
                0 <= m < self.pending().len() implies self.pending()[m] == s.remove(i as int)[m] by {
                assert(self.pending()[m] == self.java_traces@[m]@);
                if m < i {
                    assert(self.java_traces@[m] == prev[m]);
                } else {
                    assert(self.java_traces@[m] == prev[m + 1]);
                }
            }
            assert(self.pending() =~= s.remove(i as int));
            assert forall|a: int, b: int|
                0 <= a < self.pending().len() && 0 <= b < self.pending().len() && a
                    != b implies !pend_key(
                #[trigger] self.pending()[a],
                (#[trigger] self.pending()[b]).trace_id,
                self.pending()[b].pid,
                self.pending()[b].tid,
            ) by {
                let a0 = if a < i {
                    a
                } else {
                    a + 1
                };
                let b0 = if b < i {
                    b
                } else {
                    b + 1
                };
                assert(!pend_key(s[a0], s[b0].trace_id, s[b0].pid, s[b0].tid));
            }
            assert forall|m: int|
                0 <= m < self.pending().len() implies (
            #[trigger] self.pending()[m]).events.check_times > i32::MIN by {
                if m < i {
                    assert(s[m].events.check_times > i32::MIN);
                } else {
                    assert(s[m + 1].events.check_times > i32::MIN);
                }
            }
        }
        let is_sampled = entry.events.is_sampled;
        let mut thread_trace_event = entry.events.event;
        thread_trace_event.merge_response(event);
        let k8s_pod_info = self.k8s_cache.get_k8s_pod_info(
            self.node_ip.as_str(),
            thread_trace_event.container_id.as_str(),
        );
        let te = TraceEvent::new(
            pid,
            trace_id,
            thread_trace_event,
            self.java_trace_slow_time,
            self.node_name.clone(),
            self.node_ip.clone(),
            k8s_pod_info,
            offset_ts,
        );
        (Some(te), is_sampled)
    }

    /// Buffers an aggregation signal for a completed record; a full batch
    /// of one thousand is handed back for dispatch.
    pub fn cache_metric_signal(&mut self, trace_event: &TraceEvent) -> (r: Option<Vec<SignalEvent>>)
        requires
            old(self).wf(),
            trace_event.duration <= trace_event.end_time,
        ensures
            final(self).wf(),
            final(self).pending() == old(self).pending(),
            ({
                let pushed = old(self).batch_metrics.deep_view().push(
                    SignalEventView {
                        pid: trace_event@.pid,
                        tid: trace_event@.tid,
                        content_key: trace_event@.content_key,
                        container_id: trace_event@.container_id,
                        start_time: (trace_event@.end_time - trace_event@.duration) as u64,
                        end_time: trace_event@.end_time,
                    },
                );
                if pushed.len() >= 1000 {
                    r matches Some(batch) && batch.deep_view() == pushed
                        && final(self).batch_metrics@.len() == 0
                } else {
                    r is None && final(self).batch_metrics.deep_view() == pushed
                }
            }),
    {
        let ghost before = self.batch_metrics.deep_view();
        let signal = SignalEvent::new(trace_event);
        self.batch_metrics.push(signal);
        proof {
            assert(self.batch_metrics.deep_view() =~= before.push(
                self.batch_metrics@.last().deep_view(),
            ));
            assert(self.pending() =~= old(self).pending());
        }
        if self.batch_metrics.len() >= 1000 {
            let mut batch: Vec<SignalEvent> = Vec::new();
            core::mem::swap(&mut batch, &mut self.batch_metrics);
            Some(batch)
        } else {
            None
        }
    }

    /// The request-duration histogram sample a completed record adds.
    pub fn send_trace_metric_via_promethues(&self, trace_event: &TraceEvent) -> (r: (
        String,
        u64,
        Vec<LabelPair>,
    ))
        ensures
            r.0@ == "kindling_span_trace_duration_nanoseconds"@,
            r.1 == trace_event@.duration,
    {
        let labels = trace_event.to_key_value();
        ("kindling_span_trace_duration_nanoseconds".to_owned(), trace_event.duration, labels)
    }

    /// One expiry sweep: every pending entry loses a cycle, the expired
    /// ones leave; how many left is reported.
    /// `crate::laws::lemma_expiry_exact` derives from this that an entry
    /// with budget `c` survives exactly `c` sweeps.
    pub fn clear_expire_traces(&mut self) -> (r: usize)
        requires
            old(self).wf(),
        ensures
            final(self).wf(),
            final(self).pending() == spec_expire_sweep(old(self).pending()),
            final(self).pending().len() + r == old(self).pending().len(),
            final(self).batch_metrics@ == old(self).batch_metrics@,
            final(self).java_trace_wait_second == old(self).java_trace_wait_second,
            final(self).java_trace_slow_time == old(self).java_trace_slow_time,
            final(self).node_name@ == old(self).node_name@,
            final(self).node_ip@ == old(self).node_ip@,
            final(self).open_java_trace_sampling == old(self).open_java_trace_sampling,
    {
        let ghost s0 = self.pending();
        let n = self.java_traces.len();
        let mut kept: Vec<PendingTrace> = Vec::new();
        let mut removed: usize = 0;
        let mut i: usize = 0;
        proof {
            assert(s0.skip(0) =~= s0);
            assert(kept.deep_view() + spec_expire_sweep(s0.skip(0)) =~= spec_expire_sweep(s0));
        }
        while i < n
            invariant
                i <= n,
                n == self.java_traces@.len(),
                s0 == self.pending(),
                s0.len() == n,
                pend_keys_unique(s0),
                forall|m: int|
                    0 <= m < s0.len() ==> (#[trigger] s0[m]).events.check_times > i32::MIN,
                kept.deep_view() + spec_expire_sweep(s0.skip(i as int)) == spec_expire_sweep(s0),
                kept@.len() + removed == i,
                forall|m: int|
                    0 <= m < kept@.len() ==> (#[trigger] kept@[m])@.events.check_times > i32::MIN,
                forall|m: int|
                    0 <= m < kept@.len() ==> exists|m0: int|
                        0 <= m0 < s0.len() && pend_key(
                            s0[m0],
                            (#[trigger] kept@[m])@.trace_id,
                            kept@[m]@.pid,
                            kept@[m]@.tid,
                        ),
            decreases n - i,
        {
            let p = &self.java_traces[i];
            let mut entry = PendingTrace {
                trace_id: p.trace_id.clone(),
                pid: p.pid,
                tid: p.tid,
                events: TraceIdEvents::new(
                    p.events.pid,
                    p.events.trace_id.clone(),
                    p.events.is_sampled,
                    p.events.check_times,
                    p.events.event.clone(),
                ),
            };
            proof {
                assert(entry@ == s0[i as int]);
            }
            let ghost kept_before = kept.deep_view();
            let expired = entry.events.is_expired();
            if !expired {
                kept.push(entry);
                proof {
                    assert(kept.deep_view() =~= kept_before.push(kept@.last().deep_view()));
                }
            } else {
                removed = removed + 1;
            }
            proof {
                assert(s0.skip(i as int)[0] == s0[i as int]);
                assert(s0.skip(i as int).skip(1) =~= s0.skip(i + 1));
                assert(kept.deep_view() + spec_expire_sweep(s0.skip(i + 1)) =~= spec_expire_sweep(
                    s0,
                ));
            }
            i = i + 1;
        }
        proof {
            assert(s0.skip(n as int) =~= Seq::<PendingTraceView>::empty());
            assert(spec_expire_sweep(s0.skip(n as int)) =~= Seq::<PendingTraceView>::empty());
            assert(kept.deep_view() =~= kept.deep_view() + Seq::<PendingTraceView>::empty());
        }
        self.java_traces = kept;
        proof {
            lemma_expire_keeps_keys(s0, self.pending());
        }
        removed
    }
}

/// The sweep never changes a surviving entry's key, so key uniqueness
/// survives it; every surviving key was already present.
pub proof fn lemma_expire_keeps_keys(s: Seq<PendingTraceView>, s1: Seq<PendingTraceView>)
    requires
        pend_keys_unique(s),
        s1 == spec_expire_sweep(s),
    ensures
        pend_keys_unique(s1),
        forall|m: int|
            0 <= m < s1.len() ==> has_pend(
                s,
                (#[trigger] s1[m]).trace_id,
                s1[m].pid,
                s1[m].tid,
            ),
    decreases s.len(),
{
    if s.len() == 0 {
    } else {
        let rest = s.skip(1);
        let srest = spec_expire_sweep(rest);
        assert forall|a: int, b: int|
            0 <= a < rest.len() && 0 <= b < rest.len() && a != b implies !pend_key(
            #[trigger] rest[a],
            (#[trigger] rest[b]).trace_id,
            rest[b].pid,
            rest[b].tid,
        ) by {
            assert(rest[a] == s[a + 1]);
            assert(rest[b] == s[b + 1]);
            assert(!pend_key(s[a + 1], s[b + 1].trace_id, s[b + 1].pid, s[b + 1].tid));
        }
        lemma_expire_keeps_keys(rest, srest);
        let p = s[0];
        let kept = p.events.check_times - 1 >= 0;
        assert forall|m: int|
            0 <= m < s1.len() implies has_pend(
            s,
            (#[trigger] s1[m]).trace_id,
            s1[m].pid,
            s1[m].tid,
        ) by {
            if kept && m == 0 {
                assert(pend_key(s[0], s1[0].trace_id, s1[0].pid, s1[0].tid));
            } else {
                let mr = if kept {
                    m - 1
                } else {
                    m
                };
                assert(s1[m] == srest[mr]);
                assert(has_pend(rest, srest[mr].trace_id, srest[mr].pid, srest[mr].tid));
                let w = choose|w: int|
                    0 <= w < rest.len() && pend_key(
                        #[trigger] rest[w],
                        srest[mr].trace_id,
                        srest[mr].pid,
                        srest[mr].tid,
                    );
                assert(rest[w] == s[w + 1]);
                assert(pend_key(s[w + 1], s1[m].trace_id, s1[m].pid, s1[m].tid));
            }
        }
        assert forall|a: int, b: int|
            0 <= a < s1.len() && 0 <= b < s1.len() && a != b implies !pend_key(
            #[trigger] s1[a],
            (#[trigger] s1[b]).trace_id,
            s1[b].pid,
            s1[b].tid,
        ) by {
            if kept {
                if a >= 1 && b >= 1 {
                    assert(s1[a] == srest[a - 1]);
                    assert(s1[b] == srest[b - 1]);
                    assert(!pend_key(
                        srest[a - 1],
                        srest[b - 1].trace_id,
                        srest[b - 1].pid,
                        srest[b - 1].tid,
                    ));
                } else {
                    let (z, o) = if a == 0 {
                        (a, b)
                    } else {
                        (b, a)
                    };
                    assert(s1[z].trace_id == p.trace_id && s1[z].pid == p.pid && s1[z].tid
                        == p.tid);
                    assert(s1[o] == srest[o - 1]);
                    assert(has_pend(rest, srest[o - 1].trace_id, srest[o - 1].pid, srest[o - 1].tid));
                    let w = choose|w: int|
                        0 <= w < rest.len() && pend_key(
                            #[trigger] rest[w],
                            srest[o - 1].trace_id,
                            srest[o - 1].pid,
                            srest[o - 1].tid,
                        );
                    assert(rest[w] == s[w + 1]);
                    if pend_key(s1[a], s1[b].trace_id, s1[b].pid, s1[b].tid) {
                        assert(pend_key(s[0], s[w + 1].trace_id, s[w + 1].pid, s[w + 1].tid));
                        assert(false);
                    }
                }
            } else {
                assert(s1[a] == srest[a]);
                assert(s1[b] == srest[b]);
                assert(!pend_key(srest[a], srest[b].trace_id, srest[b].pid, srest[b].tid));
            }
        }
    }
}

} // verus!
