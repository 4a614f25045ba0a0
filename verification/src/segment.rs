//! Raw timing events and the one-second segment that stores them.
//!
//! A `Segment` is a second-wide bucket holding the CPU, futex and
//! transaction-id events whose time range touches that second.  Events are
//! immutable value records; a segment owns its copies.

use vstd::prelude::*;

verus! {

/// Nanoseconds in one second.
pub const NANO_TO_SECONDS: u64 = 1_000_000_000;

/// Number of one-second buckets in a thread's rolling window.
pub const MAX_SEGMENT_SIZE: usize = 40;

/// Absolute-timestamp sanity bounds: events outside are clock garbage.
pub const UPPER_LIMITE_TS: u64 = 2000000000000000000;

pub const LOWER_LIMITE_TS: u64 = 1600000000000000000;

/// Number of CPU-time categories (on-cpu, file, net, futex, idle, other, epoll).
pub const CPUTYPE_MAX: usize = 7;

#[derive(Debug, Clone, Copy, PartialEq, Eq, Structural)]
pub enum TimedEventKind {
    TimedCpuEventKind,
    TimedJavaFutexEventKind,
    TimedTransactionIdEventKind,
    TimedApmSpanEventKind,
    TimedInnerCallEventKind,
}

/// A raw event that occupies a time range; routing into segments only
/// needs its endpoints and kind.
pub trait TimedEvent {
    spec fn spec_start_timestamp(&self) -> u64;

    spec fn spec_end_timestamp(&self) -> u64;

    spec fn spec_kind(&self) -> TimedEventKind;

    fn start_timestamp(&self) -> (r: u64)
        ensures
            r == self.spec_start_timestamp(),
    ;

    fn end_timestamp(&self) -> (r: u64)
        ensures
            r == self.spec_end_timestamp(),
    ;

    fn kind(&self) -> (r: TimedEventKind)
        ensures
            r == self.spec_kind(),
    ;
}

/// One observed on/off-CPU interval, split into typed sub-intervals.
///
/// `type_specs[i]` is the i-th sub-interval's duration in nanoseconds,
/// `time_type[i]` its category, and `runq_latency[i/2]` the run-queue
/// latency (microseconds) attributed to the i-th on/off pair.
pub struct CpuEvent {
    pub start_time: u64,
    pub end_time: u64,
    pub type_specs: Vec<u64>,
    pub runq_latency: Vec<u64>,
    pub time_type: Vec<u8>,
    pub on_info: String,
    pub off_info: String,
    pub log: String,
    pub stack: String,
}

#[verifier::ext_equal]
pub ghost struct CpuEventView {
    pub start_time: u64,
    pub end_time: u64,
    pub type_specs: Seq<u64>,
    pub runq_latency: Seq<u64>,
    pub time_type: Seq<u8>,
    pub on_info: Seq<char>,
    pub off_info: Seq<char>,
    pub log: Seq<char>,
    pub stack: Seq<char>,
}

impl View for CpuEvent {
    type V = CpuEventView;

    open spec fn view(&self) -> CpuEventView {
        CpuEventView {
            start_time: self.start_time,
            end_time: self.end_time,
            type_specs: self.type_specs@,
            runq_latency: self.runq_latency@,
            time_type: self.time_type@,
            on_info: self.on_info@,
            off_info: self.off_info@,
            log: self.log@,
            stack: self.stack@,
        }
    }
}

impl DeepView for CpuEvent {
    type V = CpuEventView;

    open spec fn deep_view(&self) -> CpuEventView {
        self.view()
    }
}

/// The parallel arrays are consistent: every sub-interval has a category
/// below `CPUTYPE_MAX` and a run-queue slot to read.
pub open spec fn cpu_event_wf(ev: CpuEventView) -> bool {
    &&& ev.time_type.len() == ev.type_specs.len()
    &&& ev.type_specs.len() <= 2 * ev.runq_latency.len()
    &&& forall|i: int|
        0 <= i < ev.time_type.len() ==> (#[trigger] ev.time_type[i]) < CPUTYPE_MAX as u8
}

/// Runtime check matching [`cpu_event_wf`]; malformed events are dropped
/// at ingestion, never stored.
pub fn check_cpu_event_wf(ev: &CpuEvent) -> (r: bool)
    ensures
        r == cpu_event_wf(ev@),
{
    if ev.time_type.len() != ev.type_specs.len() {
        return false;
    }
    let need = ev.type_specs.len() / 2 + ev.type_specs.len() % 2;
    if need > ev.runq_latency.len() {
        return false;
    }
    let mut i: usize = 0;
    while i < ev.time_type.len()
        invariant
            i <= ev.time_type@.len(),
            ev.time_type@.len() == ev.type_specs@.len(),
            ev.type_specs@.len() <= 2 * ev.runq_latency@.len(),
            forall|j: int| 0 <= j < i ==> (#[trigger] ev.time_type@[j]) < CPUTYPE_MAX as u8,
        decreases ev.time_type@.len() - i,
    {
        if ev.time_type[i] >= CPUTYPE_MAX as u8 {
            return false;
        }
        i = i + 1;
    }
    true
}

impl TimedEvent for CpuEvent {
    open spec fn spec_start_timestamp(&self) -> u64 {
        self.start_time
    }

    open spec fn spec_end_timestamp(&self) -> u64 {
        self.end_time
    }

    open spec fn spec_kind(&self) -> TimedEventKind {
        TimedEventKind::TimedCpuEventKind
    }

    fn start_timestamp(&self) -> u64 {
        self.start_time
    }

    fn end_timestamp(&self) -> u64 {
        self.end_time
    }

    fn kind(&self) -> TimedEventKind {
        TimedEventKind::TimedCpuEventKind
    }
}

/// Copies a vector of plain integers, element for element.
fn clone_u64_vec(v: &Vec<u64>) -> (r: Vec<u64>)
    ensures
        r@ == v@,
{
    let mut r: Vec<u64> = Vec::new();
    let mut i: usize = 0;
    while i < v.len()
        invariant
            i <= v@.len(),
            r@ == v@.subrange(0, i as int),
        decreases v@.len() - i,
    {
        r.push(v[i]);
        i = i + 1;
    }
    assert(r@ == v@);
    r
}

fn clone_u8_vec(v: &Vec<u8>) -> (r: Vec<u8>)
    ensures
        r@ == v@,
{
    let mut r: Vec<u8> = Vec::new();
    let mut i: usize = 0;
    while i < v.len()
        invariant
            i <= v@.len(),
            r@ == v@.subrange(0, i as int),
        decreases v@.len() - i,
    {
        r.push(v[i]);
        i = i + 1;
    }
    assert(r@ == v@);
    r
}

impl Clone for CpuEvent {
    fn clone(&self) -> (res: Self)
        ensures
            res@ == self@,
    {
        CpuEvent {
            start_time: self.start_time,
            end_time: self.end_time,
            type_specs: clone_u64_vec(&self.type_specs),
            runq_latency: clone_u64_vec(&self.runq_latency),
            time_type: clone_u8_vec(&self.time_type),
            on_info: self.on_info.clone(),
            off_info: self.off_info.clone(),
            log: self.log.clone(),
            stack: self.stack.clone(),
        }
    }
}

impl Default for CpuEvent {
    fn default() -> (res: Self)
        ensures
            res@.start_time == 0,
            res@.end_time == 0,
            res@.type_specs.len() == 0,
            res@.runq_latency.len() == 0,
            res@.time_type.len() == 0,
            res@.on_info.len() == 0,
            res@.off_info.len() == 0,
            res@.log.len() == 0,
            res@.stack.len() == 0,
    {
        CpuEvent {
            start_time: 0,
            end_time: 0,
            type_specs: Vec::new(),
            runq_latency: Vec::new(),
            time_type: Vec::new(),
            on_info: String::new(),
            off_info: String::new(),
            log: String::new(),
            stack: String::new(),
        }
    }
}

/// A Java futex wait observed between two timestamps.
pub struct JavaFutexEvent {
    pub start_time: u64,
    pub end_time: u64,
    pub data_val: String,
}

#[verifier::ext_equal]
pub ghost struct JavaFutexEventView {
    pub start_time: u64,
    pub end_time: u64,
    pub data_val: Seq<char>,
}

impl View for JavaFutexEvent {
    type V = JavaFutexEventView;

    open spec fn view(&self) -> JavaFutexEventView {
        JavaFutexEventView {
            start_time: self.start_time,
            end_time: self.end_time,
            data_val: self.data_val@,
        }
    }
}

impl DeepView for JavaFutexEvent {
    type V = JavaFutexEventView;

    open spec fn deep_view(&self) -> JavaFutexEventView {
        self.view()
    }
}

impl Clone for JavaFutexEvent {
    fn clone(&self) -> (res: Self)
        ensures
            res@ == self@,
    {
        JavaFutexEvent {
            start_time: self.start_time,
            end_time: self.end_time,
            data_val: self.data_val.clone(),
        }
    }
}

impl TimedEvent for JavaFutexEvent {
    open spec fn spec_start_timestamp(&self) -> u64 {
        self.start_time
    }

    open spec fn spec_end_timestamp(&self) -> u64 {
        self.end_time
    }

    open spec fn spec_kind(&self) -> TimedEventKind {
        TimedEventKind::TimedJavaFutexEventKind
    }

    fn start_timestamp(&self) -> u64 {
        self.start_time
    }

    fn end_timestamp(&self) -> u64 {
        self.end_time
    }

    fn kind(&self) -> TimedEventKind {
        TimedEventKind::TimedJavaFutexEventKind
    }
}

/// A point event carrying an APM trace id through a thread.
pub struct TransactionIdEvent {
    pub timestamp: u64,
    pub trace_id: String,
    pub is_entry: String,
}

#[verifier::ext_equal]
pub ghost struct TransactionIdEventView {
    pub timestamp: u64,
    pub trace_id: Seq<char>,
    pub is_entry: Seq<char>,
}

impl View for TransactionIdEvent {
    type V = TransactionIdEventView;

    open spec fn view(&self) -> TransactionIdEventView {
        TransactionIdEventView {
            timestamp: self.timestamp,
            trace_id: self.trace_id@,
            is_entry: self.is_entry@,
        }
    }
}

impl DeepView for TransactionIdEvent {
    type V = TransactionIdEventView;

    open spec fn deep_view(&self) -> TransactionIdEventView {
        self.view()
    }
}

impl Clone for TransactionIdEvent {
    fn clone(&self) -> (res: Self)
        ensures
            res@ == self@,
    {
        TransactionIdEvent {
            timestamp: self.timestamp,
            trace_id: self.trace_id.clone(),
            is_entry: self.is_entry.clone(),
        }
    }
}

impl TimedEvent for TransactionIdEvent {
    open spec fn spec_start_timestamp(&self) -> u64 {
        self.timestamp
    }

    open spec fn spec_end_timestamp(&self) -> u64 {
        self.timestamp
    }

    open spec fn spec_kind(&self) -> TimedEventKind {
        TimedEventKind::TimedTransactionIdEventKind
    }

    fn start_timestamp(&self) -> u64 {
        self.timestamp
    }

    fn end_timestamp(&self) -> u64 {
        self.timestamp
    }

    fn kind(&self) -> TimedEventKind {
        TimedEventKind::TimedTransactionIdEventKind
    }
}

/// One second-wide bucket of a thread's rolling window.
pub struct Segment {
    pub start_time: u64,
    pub end_time: u64,
    pub cpu_events: Vec<CpuEvent>,
    pub java_futex_event: Vec<JavaFutexEvent>,
    pub transaction_id_event: Vec<TransactionIdEvent>,
    pub is_send: i32,
    pub index_timestamp: String,
}

#[verifier::ext_equal]
pub ghost struct SegmentView {
    pub start_time: u64,
    pub end_time: u64,
    pub cpu_events: Seq<CpuEventView>,
    pub java_futex_event: Seq<JavaFutexEventView>,
    pub transaction_id_event: Seq<TransactionIdEventView>,
    pub is_send: i32,
    pub index_timestamp: Seq<char>,
}

impl View for Segment {
    type V = SegmentView;

    open spec fn view(&self) -> SegmentView {
        SegmentView {
            start_time: self.start_time,
            end_time: self.end_time,
            cpu_events: self.cpu_events.deep_view(),
            java_futex_event: self.java_futex_event.deep_view(),
            transaction_id_event: self.transaction_id_event.deep_view(),
            is_send: self.is_send,
            index_timestamp: self.index_timestamp@,
        }
    }
}

impl DeepView for Segment {
    type V = SegmentView;

    open spec fn deep_view(&self) -> SegmentView {
        self.view()
    }
}

/// A segment carrying no events, with second-aligned bounds for `slot`.
pub open spec fn seg_empty_at(s: SegmentView, slot: int) -> bool {
    &&& s.start_time == slot * NANO_TO_SECONDS
    &&& s.end_time == (slot + 1) * NANO_TO_SECONDS
    &&& s.cpu_events.len() == 0
    &&& s.java_futex_event.len() == 0
    &&& s.transaction_id_event.len() == 0
    &&& s.is_send == 0
    &&& s.index_timestamp.len() == 0
}

impl Segment {
    pub fn new(start_time: u64, end_time: u64) -> (res: Self)
        ensures
            res@.start_time == start_time,
            res@.end_time == end_time,
            res@.cpu_events.len() == 0,
            res@.java_futex_event.len() == 0,
            res@.transaction_id_event.len() == 0,
            res@.is_send == 0,
            res@.index_timestamp.len() == 0,
    {
        Segment {
            start_time,
            end_time,
            cpu_events: Vec::new(),
            java_futex_event: Vec::new(),
            transaction_id_event: Vec::new(),
            is_send: 0,
            index_timestamp: String::new(),
        }
    }

    pub fn put_cpu_event(&mut self, event: CpuEvent)
        ensures
            final(self)@ == (SegmentView {
                cpu_events: old(self)@.cpu_events.push(event@),
                ..old(self)@
            }),
    {
        self.cpu_events.push(event);
        assert(self.cpu_events.deep_view() =~= old(self).cpu_events.deep_view().push(event@));
    }

    pub fn put_java_futex_event(&mut self, event: JavaFutexEvent)
        ensures
            final(self)@ == (SegmentView {
                java_futex_event: old(self)@.java_futex_event.push(event@),
                ..old(self)@
            }),
    {
        self.java_futex_event.push(event);
        assert(self.java_futex_event.deep_view() =~= old(self).java_futex_event.deep_view().push(
            event@,
        ));
    }

    pub fn put_transaction_id_event(&mut self, event: TransactionIdEvent)
        ensures
            final(self)@ == (SegmentView {
                transaction_id_event: old(self)@.transaction_id_event.push(event@),
                ..old(self)@
            }),
    {
        self.transaction_id_event.push(event);
        assert(self.transaction_id_event.deep_view()
            =~= old(self).transaction_id_event.deep_view().push(event@));
    }

    pub fn is_not_empty(&self) -> (r: bool)
        ensures
            r == (self@.cpu_events.len() != 0),
    {
        self.cpu_events.len() != 0
    }

    /// Marks the segment dirty (not yet exported).
    pub fn mark_unsent(&mut self)
        ensures
            final(self)@ == (SegmentView { is_send: 0i32, ..old(self)@ }),
    {
        self.is_send = 0;
    }

    /// Marks the segment as exported.
    pub fn mark_sent(&mut self)
        ensures
            final(self)@ == (SegmentView { is_send: 1i32, ..old(self)@ }),
    {
        self.is_send = 1;
    }

    /// Stamps the wall-clock string recorded at export time.
    pub fn update_index_timestamp(&mut self)
        ensures
            final(self)@ == (SegmentView {
                index_timestamp: final(self)@.index_timestamp,
                ..old(self)@
            }),
    {
        self.index_timestamp = crate::clock::local_now_string();
    }
}

impl Clone for Segment {
    fn clone(&self) -> (res: Self)
        ensures
            res@ == self@,
    {
        let mut cpu_events: Vec<CpuEvent> = Vec::new();
        let mut i: usize = 0;
        while i < self.cpu_events.len()
            invariant
                i <= self.cpu_events@.len(),
                cpu_events@.len() == i,
                forall|m: int|
                    0 <= m < i ==> (#[trigger] cpu_events@[m])@ == self.cpu_events@[m]@,
            decreases self.cpu_events@.len() - i,
        {
            cpu_events.push(self.cpu_events[i].clone());
            i = i + 1;
        }
        proof {
            assert forall|m: int| 0 <= m < self.cpu_events@.len() implies cpu_events.deep_view()[m]
                == self.cpu_events.deep_view()[m] by {
                assert(cpu_events@[m]@ == self.cpu_events@[m]@);
            }
            assert(cpu_events.deep_view() =~= self.cpu_events.deep_view());
        }

        let mut java_futex_event: Vec<JavaFutexEvent> = Vec::new();
        let mut j: usize = 0;
        while j < self.java_futex_event.len()
            invariant
                j <= self.java_futex_event@.len(),
                java_futex_event@.len() == j,
                forall|m: int|
                    0 <= m < j ==> (#[trigger] java_futex_event@[m])@
                        == self.java_futex_event@[m]@,
            decreases self.java_futex_event@.len() - j,
        {
            java_futex_event.push(self.java_futex_event[j].clone());
            j = j + 1;
        }
        proof {
            assert forall|m: int| 0 <= m < self.java_futex_event@.len() implies java_futex_event.deep_view()[m]
                == self.java_futex_event.deep_view()[m] by {
                assert(java_futex_event@[m]@ == self.java_futex_event@[m]@);
            }
            assert(java_futex_event.deep_view() =~= self.java_futex_event.deep_view());
        }

        let mut transaction_id_event: Vec<TransactionIdEvent> = Vec::new();
        let mut k: usize = 0;
        while k < self.transaction_id_event.len()
            invariant
                k <= self.transaction_id_event@.len(),
                transaction_id_event@.len() == k,
                forall|m: int|
                    0 <= m < k ==> (#[trigger] transaction_id_event@[m])@
                        == self.transaction_id_event@[m]@,
            decreases self.transaction_id_event@.len() - k,
        {
            transaction_id_event.push(self.transaction_id_event[k].clone());
            k = k + 1;
        }
        proof {
            assert forall|m: int| 0 <= m < self.transaction_id_event@.len() implies transaction_id_event.deep_view()[m]
                == self.transaction_id_event.deep_view()[m] by {
                assert(transaction_id_event@[m]@ == self.transaction_id_event@[m]@);
            }
            assert(transaction_id_event.deep_view() =~= self.transaction_id_event.deep_view());
        }

        Segment {
            start_time: self.start_time,
            end_time: self.end_time,
            cpu_events,
            java_futex_event,
            transaction_id_event,
            is_send: self.is_send,
            index_timestamp: self.index_timestamp.clone(),
        }
    }
}

} // verus!
