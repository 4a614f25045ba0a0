//! The crate's cross-function guarantees, stated and proved over the
//! spec-level transitions that the executable functions are verified
//! against.

use vstd::prelude::*;

use crate::cpu_analyzer::{put_transition, sec_of, win_ok, WinView, HALF_SEGMENT_SIZE};
use crate::segment::{CpuEventView, SegmentView, MAX_SEGMENT_SIZE};
use crate::time_aggregate::{
    agg_add, agg_event, agg_event_from, agg_events_from, lower_bound_spec, sat_add, spec_aggregate,
    sub_on_off_runq, AggView,
};
use crate::traceid_analyzer::{
    has_pend, new_entry, pend_idx, pend_key, pend_keys_unique, refreshed_entry, resolves,
    spec_expire_sweep, spec_process_request, spec_process_response, lemma_pend_idx_agrees,
    lemma_expire_keeps_keys, PendingTraceView,
};
use crate::traceid_model::{ThreadTraceIdEventView, TraceIdEventsView};

verus! {

/// A "slide" rebase keeps every bucket still inside the window: the
/// content stored for an absolute second that both the old and the new
/// window cover is exactly the old content, so previously ingested events
/// in the overlap stay queryable unchanged.
pub proof fn lemma_slide_preserves_buckets(w: WinView, tname: Seq<char>, s: u64, e: u64)
    requires
        win_ok(w),
        sec_of(e) >= w.base_time,
        sec_of(s) - w.base_time >= MAX_SEGMENT_SIZE,
        sec_of(e) - w.base_time <= MAX_SEGMENT_SIZE,
        2 * (sec_of(s) - w.base_time) < 3 * MAX_SEGMENT_SIZE,
    ensures
        ({
            let (w2, ro) = put_transition(w, tname, s, e);
            &&& w2.base_time == w.base_time + HALF_SEGMENT_SIZE
            &&& forall|x: int|
                w2.base_time <= x < w.base_time + MAX_SEGMENT_SIZE ==> #[trigger] w2.segments[x
                    - w2.base_time] == w.segments[x - w.base_time]
        }),
{
    let (w2, ro) = put_transition(w, tname, s, e);
    assert forall|x: int|
        w2.base_time <= x < w.base_time + MAX_SEGMENT_SIZE implies #[trigger] w2.segments[x
        - w2.base_time] == w.segments[x - w.base_time] by {
        let i = x - w2.base_time;
        assert(0 <= i < HALF_SEGMENT_SIZE);
        assert(w2.segments[i] == w.segments[i + HALF_SEGMENT_SIZE]);
    }
}

/// An enter keeps pending keys unique.
pub proof fn lemma_request_keeps_keys(
    s: Seq<PendingTraceView>,
    trace_id: Seq<char>,
    pid: u32,
    tid: u32,
    ev: ThreadTraceIdEventView,
    is_sampled: bool,
    wait: i32,
)
    requires
        pend_keys_unique(s),
    ensures
        pend_keys_unique(spec_process_request(s, trace_id, pid, tid, ev, is_sampled, wait)),
    decreases s.len(),
{
    let s1 = spec_process_request(s, trace_id, pid, tid, ev, is_sampled, wait);
    if has_pend(s, trace_id, pid, tid) {
        let i = pend_idx(s, trace_id, pid, tid);
        assert forall|a: int, b: int|
            0 <= a < s1.len() && 0 <= b < s1.len() && a != b implies !pend_key(
            #[trigger] s1[a],
            (#[trigger] s1[b]).trace_id,
            s1[b].pid,
            s1[b].tid,
        ) by {
            assert(s1[a].trace_id == s[a].trace_id && s1[a].pid == s[a].pid && s1[a].tid
                == s[a].tid);
            assert(s1[b].trace_id == s[b].trace_id && s1[b].pid == s[b].pid && s1[b].tid
                == s[b].tid);
            assert(!pend_key(s[a], s[b].trace_id, s[b].pid, s[b].tid));
        }
    } else {
        assert forall|a: int, b: int|
            0 <= a < s1.len() && 0 <= b < s1.len() && a != b implies !pend_key(
            #[trigger] s1[a],
            (#[trigger] s1[b]).trace_id,
            s1[b].pid,
            s1[b].tid,
        ) by {
            if a < s.len() && b < s.len() {
                assert(!pend_key(s[a], s[b].trace_id, s[b].pid, s[b].tid));
            } else if b == s.len() {
                assert(!pend_key(s[a], trace_id, pid, tid));
            } else {
                assert(!pend_key(s[b], trace_id, pid, tid));
            }
        }
    }
}

/// Correlator idempotence: from a state with no pending entry for the
/// key, two enters leave exactly one pending entry, carrying the second
/// enter's URL and the OR of the two sampling flags; a matching business
/// exit consumes that entry, and a second identical exit finds nothing,
/// so one exit can never produce two completed records.
pub proof fn lemma_correlator_idempotent(
    s: Seq<PendingTraceView>,
    trace_id: Seq<char>,
    pid: u32,
    tid: u32,
    e1: ThreadTraceIdEventView,
    samp1: bool,
    e2: ThreadTraceIdEventView,
    samp2: bool,
    wait: i32,
    exit_ev: ThreadTraceIdEventView,
)
    requires
        pend_keys_unique(s),
        !has_pend(s, trace_id, pid, tid),
        exit_ev.thread_type == 0,
        e1.timestamp <= exit_ev.timestamp,
    ensures
        ({
            let s1 = spec_process_request(s, trace_id, pid, tid, e1, samp1, wait);
            let s2 = spec_process_request(s1, trace_id, pid, tid, e2, samp2, wait);
            let after_exit = spec_process_response(s2, trace_id, pid, tid, exit_ev);
            let entry = s2[pend_idx(s2, trace_id, pid, tid)];
            &&& s2.len() == s.len() + 1
            &&& has_pend(s2, trace_id, pid, tid)
            &&& entry.events.event.url == e2.url
            &&& entry.events.is_sampled == (samp1 || samp2)
            &&& entry.events.event.timestamp == e1.timestamp
            &&& resolves(s2, trace_id, pid, tid, exit_ev)
            &&& !has_pend(after_exit, trace_id, pid, tid)
            &&& !resolves(after_exit, trace_id, pid, tid, exit_ev)
            &&& spec_process_response(after_exit, trace_id, pid, tid, exit_ev) == after_exit
        }),
{
    let s1 = spec_process_request(s, trace_id, pid, tid, e1, samp1, wait);
    assert(s1 == s.push(new_entry(trace_id, pid, tid, e1, samp1, wait)));
    lemma_request_keeps_keys(s, trace_id, pid, tid, e1, samp1, wait);
    assert(pend_key(s1[s.len() as int], trace_id, pid, tid));
    lemma_pend_idx_agrees(s1, trace_id, pid, tid, s.len() as int);
    let i = s.len() as int;

    let s2 = spec_process_request(s1, trace_id, pid, tid, e2, samp2, wait);
    assert(s2 == s1.update(i, refreshed_entry(s1[i], e2, samp2)));
    lemma_request_keeps_keys(s1, trace_id, pid, tid, e2, samp2, wait);
    assert(pend_key(s2[i], trace_id, pid, tid));
    lemma_pend_idx_agrees(s2, trace_id, pid, tid, i);
    assert(s2[i].events.event.url == e2.url);
    assert(s2[i].events.is_sampled == (samp1 || samp2));
    assert(s2[i].events.event.timestamp == e1.timestamp);
    assert(resolves(s2, trace_id, pid, tid, exit_ev));

    let after_exit = spec_process_response(s2, trace_id, pid, tid, exit_ev);
    assert(after_exit == s2.remove(i));
    assert forall|m: int| 0 <= m < after_exit.len() implies !pend_key(
        #[trigger] after_exit[m],
        trace_id,
        pid,
        tid,
    ) by {
        let m0 = if m < i {
            m
        } else {
            m + 1
        };
        assert(after_exit[m] == s2[m0]);
        if m0 < s.len() {
            assert(s2[m0].trace_id == s[m0].trace_id && s2[m0].pid == s[m0].pid && s2[m0].tid
                == s[m0].tid);
            assert(!pend_key(s[m0], trace_id, pid, tid));
        }
    }
    assert(!has_pend(after_exit, trace_id, pid, tid));
    assert(!resolves(after_exit, trace_id, pid, tid, exit_ev));
}

/// The pending table after `k` expiry sweeps.
pub open spec fn sweep_n(s: Seq<PendingTraceView>, k: int) -> Seq<PendingTraceView>
    decreases k,
{
    if k <= 0 {
        s
    } else {
        spec_expire_sweep(sweep_n(s, k - 1))
    }
}

/// One sweep, seen through one key: an entry with budget left survives
/// with its budget one lower; an entry whose budget is spent disappears.
pub proof fn lemma_sweep_one_key(s: Seq<PendingTraceView>, trace_id: Seq<char>, pid: u32, tid: u32)
    requires
        pend_keys_unique(s),
        has_pend(s, trace_id, pid, tid),
    ensures
        pend_keys_unique(spec_expire_sweep(s)),
        ({
            let p = s[pend_idx(s, trace_id, pid, tid)];
            let s1 = spec_expire_sweep(s);
            if p.events.check_times - 1 >= 0 {
                has_pend(s1, trace_id, pid, tid) && s1[pend_idx(s1, trace_id, pid, tid)]
                    == (PendingTraceView {
                    events: TraceIdEventsView {
                        check_times: (p.events.check_times - 1) as i32,
                        ..p.events
                    },
                    ..p
                })
            } else {
                !has_pend(s1, trace_id, pid, tid)
            }
        }),
    decreases s.len(),
{
    let s1 = spec_expire_sweep(s);
    lemma_expire_keeps_keys(s, s1);
    let i = pend_idx(s, trace_id, pid, tid);
    let p = s[i];
    let rest = s.skip(1);
    let srest = spec_expire_sweep(rest);
    assert forall|a: int, b: int|
        0 <= a < rest.len() && 0 <= b < rest.len() && a != b implies !pend_key(
        #[trigger] rest[a],
        (#[trigger] rest[b]).trace_id,
        rest[b].pid,
        rest[b].tid,
    ) by {
        assert(rest[a] == s[a + 1]);
        assert(rest[b] == s[b + 1]);
        assert(!pend_key(s[a + 1], s[b + 1].trace_id, s[b + 1].pid, s[b + 1].tid));
    }
    let head_kept = s[0].events.check_times - 1 >= 0;
    let dec0 = PendingTraceView {
        events: TraceIdEventsView {
            check_times: (s[0].events.check_times - 1) as i32,
            ..s[0].events
        },
        ..s[0]
    };
    if i == 0 {
        // The keyed entry is the head; no other entry carries the key.
        assert forall|m: int| 0 <= m < rest.len() implies !pend_key(
            #[trigger] rest[m],
            trace_id,
            pid,
            tid,
        ) by {
            assert(rest[m] == s[m + 1]);
            assert(!pend_key(s[m + 1], s[0].trace_id, s[0].pid, s[0].tid));
        }
        lemma_expire_keeps_keys(rest, srest);
        assert forall|m: int| 0 <= m < srest.len() implies !pend_key(
            #[trigger] srest[m],
            trace_id,
            pid,
            tid,
        ) by {
            assert(has_pend(rest, srest[m].trace_id, srest[m].pid, srest[m].tid));
            let w = choose|w: int|
                0 <= w < rest.len() && pend_key(
                    #[trigger] rest[w],
                    srest[m].trace_id,
                    srest[m].pid,
                    srest[m].tid,
                );
            if pend_key(srest[m], trace_id, pid, tid) {
                assert(pend_key(rest[w], trace_id, pid, tid));
                assert(false);
            }
        }
        if head_kept {
            assert(s1 == seq![dec0] + srest);
            assert(s1[0] == dec0);
            assert(pend_key(s1[0], trace_id, pid, tid));
            lemma_pend_idx_agrees(s1, trace_id, pid, tid, 0);
        } else {
            assert(s1 =~= srest);
            assert(!has_pend(s1, trace_id, pid, tid));
        }
    } else {
        // The keyed entry sits in the tail; the head has another key.
        assert(rest[i - 1] == s[i]);
        lemma_pend_idx_agrees(rest, trace_id, pid, tid, i - 1);
        lemma_sweep_one_key(rest, trace_id, pid, tid);
        assert(!pend_key(s[0], trace_id, pid, tid));
        if p.events.check_times - 1 >= 0 {
            let jr = pend_idx(srest, trace_id, pid, tid);
            let decp = PendingTraceView {
                events: TraceIdEventsView {
                    check_times: (p.events.check_times - 1) as i32,
                    ..p.events
                },
                ..p
            };
            if head_kept {
                assert(s1 == seq![dec0] + srest);
                assert(s1[jr + 1] == srest[jr]);
                assert(pend_key(s1[jr + 1], trace_id, pid, tid));
                lemma_pend_idx_agrees(s1, trace_id, pid, tid, jr + 1);
            } else {
                assert(s1 =~= srest);
                assert(pend_key(s1[jr], trace_id, pid, tid));
                lemma_pend_idx_agrees(s1, trace_id, pid, tid, jr);
            }
        } else {
            assert(!has_pend(srest, trace_id, pid, tid));
            if head_kept {
                assert(s1 == seq![dec0] + srest);
                assert forall|m: int| 0 <= m < s1.len() implies !pend_key(
                    #[trigger] s1[m],
                    trace_id,
                    pid,
                    tid,
                ) by {
                    if m == 0 {
                        assert(!pend_key(s[0], trace_id, pid, tid));
                    } else {
                        assert(s1[m] == srest[m - 1]);
                        if pend_key(s1[m], trace_id, pid, tid) {
                            assert(pend_key(srest[m - 1], trace_id, pid, tid));
                            assert(false);
                        }
                    }
                }
                assert(!has_pend(s1, trace_id, pid, tid));
            } else {
                assert(s1 =~= srest);
                assert(!has_pend(s1, trace_id, pid, tid));
            }
        }
    }
}

/// Expiry is exact: an entry whose budget stands at `c` survives `k`
/// sweeps whenever `k <= c`, with its budget down to `c - k`, and is gone
/// after `c + 1` sweeps, having produced nothing.
pub proof fn lemma_expiry_exact(
    s: Seq<PendingTraceView>,
    trace_id: Seq<char>,
    pid: u32,
    tid: u32,
    k: int,
)
    requires
        pend_keys_unique(s),
        has_pend(s, trace_id, pid, tid),
        s[pend_idx(s, trace_id, pid, tid)].events.check_times >= 0,
        0 <= k,
    ensures
        pend_keys_unique(sweep_n(s, k)),
        ({
            let p = s[pend_idx(s, trace_id, pid, tid)];
            let sk = sweep_n(s, k);
            if k <= p.events.check_times {
                has_pend(sk, trace_id, pid, tid) && sk[pend_idx(sk, trace_id, pid, tid)]
                    == (PendingTraceView {
                    events: TraceIdEventsView {
                        check_times: (p.events.check_times - k) as i32,
                        ..p.events
                    },
                    ..p
                })
            } else {
                !has_pend(sk, trace_id, pid, tid)
            }
        }),
    decreases k,
{
    let p = s[pend_idx(s, trace_id, pid, tid)];
    if k == 0 {
        assert(sweep_n(s, 0) == s);
        assert(p =~= (PendingTraceView {
            events: TraceIdEventsView {
                check_times: (p.events.check_times - 0) as i32,
                ..p.events
            },
            ..p
        }));
    } else {
        lemma_expiry_exact(s, trace_id, pid, tid, k - 1);
        let sk1 = sweep_n(s, k - 1);
        if k - 1 <= p.events.check_times {
            let q = sk1[pend_idx(sk1, trace_id, pid, tid)];
            lemma_sweep_one_key(sk1, trace_id, pid, tid);
            if k <= p.events.check_times {
                assert(q.events.check_times - 1 >= 0);
                let sk = sweep_n(s, k);
                assert(sk[pend_idx(sk, trace_id, pid, tid)] =~= (PendingTraceView {
                    events: TraceIdEventsView {
                        check_times: (p.events.check_times - k) as i32,
                        ..p.events
                    },
                    ..p
                }));
            } else {
                assert(q.events.check_times == 0);
                assert(!has_pend(sweep_n(s, k), trace_id, pid, tid));
            }
        } else {
            // Already gone: a sweep cannot bring the key back.
            lemma_expire_keeps_keys(sk1, sweep_n(s, k));
            let sk = sweep_n(s, k);
            assert forall|m: int| 0 <= m < sk.len() implies !pend_key(
                #[trigger] sk[m],
                trace_id,
                pid,
                tid,
            ) by {
                assert(has_pend(sk1, sk[m].trace_id, sk[m].pid, sk[m].tid));
                let w = choose|w: int|
                    0 <= w < sk1.len() && pend_key(
                        #[trigger] sk1[w],
                        sk[m].trace_id,
                        sk[m].pid,
                        sk[m].tid,
                    );
                if pend_key(sk[m], trace_id, pid, tid) {
                    assert(pend_key(sk1[w], trace_id, pid, tid));
                    assert(false);
                }
            }
            assert(!has_pend(sk, trace_id, pid, tid));
        }
    }
}

/// Everything before position `i` of a lower-bound search starts before
/// the target.
pub proof fn lemma_lower_bound_prefix(evs: Seq<CpuEventView>, target: u64, i: int, m: int)
    requires
        0 <= i <= m < lower_bound_spec(evs, target, i),
    ensures
        m < evs.len() && evs[m].start_time < target,
    decreases m - i,
{
    crate::time_aggregate::lemma_lower_bound_range(evs, target, i);
    if i < m {
        lemma_lower_bound_prefix(evs, target, i + 1, m);
    }
}

/// A lower-bound search that lands inside the list landed on a position
/// at or past the target.
pub proof fn lemma_lower_bound_hit(evs: Seq<CpuEventView>, target: u64, i: int)
    requires
        0 <= i <= evs.len(),
        lower_bound_spec(evs, target, i) < evs.len(),
    ensures
        evs[lower_bound_spec(evs, target, i)].start_time >= target,
    decreases evs.len() - i,
{
    if i < evs.len() {
        if evs[i].start_time >= target {
        } else {
            lemma_lower_bound_hit(evs, target, i + 1);
        }
    }
}

/// After the query's end, every remaining sub-interval is clipped to
/// nothing.
pub proof fn lemma_subs_past_end_zero(
    a: AggView,
    ev: CpuEventView,
    i: int,
    cur: u64,
    qs: u64,
    qe: u64,
)
    requires
        qs <= qe,
        cur >= qe,
    ensures
        agg_event_from(a, ev, i, cur, qs, qe) == a,
    decreases ev.type_specs.len() - i,
{
    if 0 <= i < ev.type_specs.len() {
        let (on, rq) = sub_on_off_runq(ev, i, qs, qe, cur);
        assert(on == 0 && rq == 0);
        assert(agg_add(a, ev.time_type[i], on, rq) == a);
        lemma_subs_past_end_zero(a, ev, i + 1, sat_add(cur, ev.type_specs[i]), qs, qe);
    }
}

/// An event starting at or after the query's end adds nothing.
pub proof fn lemma_event_past_end_zero(a: AggView, ev: CpuEventView, qs: u64, qe: u64)
    requires
        qs <= qe,
        ev.start_time >= qe,
    ensures
        agg_event(a, ev, qs, qe) == a,
{
    if !(ev.start_time > qe || ev.end_time < qs) {
        lemma_subs_past_end_zero(a, ev, 0, ev.start_time, qs, qe);
    }
}

/// Events that end before the query's start can be skipped at the front
/// of the fold.
pub proof fn lemma_agg_prefix_zero(
    a: AggView,
    evs: Seq<CpuEventView>,
    j: int,
    k: int,
    qs: u64,
    qe: u64,
)
    requires
        0 <= j <= k <= evs.len(),
        forall|m: int| j <= m < k ==> (#[trigger] evs[m]).end_time < qs,
    ensures
        agg_events_from(a, evs, j, qs, qe) == agg_events_from(a, evs, k, qs, qe),
    decreases k - j,
{
    if j < k {
        assert(evs[j].end_time < qs);
        assert(agg_event(a, evs[j], qs, qe) == a);
        lemma_agg_prefix_zero(a, evs, j + 1, k, qs, qe);
    }
}

/// Events at and after the cut that start at or past the query's end
/// leave the fold where it stands.
pub proof fn lemma_agg_tail_zero(a: AggView, evs: Seq<CpuEventView>, k: int, qs: u64, qe: u64)
    requires
        qs <= qe,
        0 <= k <= evs.len(),
        forall|m: int| k <= m < evs.len() ==> (#[trigger] evs[m]).start_time >= qe,
    ensures
        agg_events_from(a, evs, k, qs, qe) == a,
    decreases evs.len() - k,
{
    if k < evs.len() {
        lemma_event_past_end_zero(a, evs[k], qs, qe);
        lemma_agg_tail_zero(a, evs, k + 1, qs, qe);
    }
}

/// Folding over the slice `[lo, hi)` equals folding over the full list
/// from `lo`, provided everything from `hi` on contributes nothing.
pub proof fn lemma_agg_subrange(
    a: AggView,
    evs: Seq<CpuEventView>,
    lo: int,
    hi: int,
    j: int,
    qs: u64,
    qe: u64,
)
    requires
        qs <= qe,
        0 <= lo <= j <= hi <= evs.len(),
        forall|m: int| hi <= m < evs.len() ==> (#[trigger] evs[m]).start_time >= qe,
    ensures
        agg_events_from(a, evs.subrange(lo, hi), j - lo, qs, qe) == agg_events_from(
            a,
            evs,
            j,
            qs,
            qe,
        ),
    decreases hi - j,
{
    let sub = evs.subrange(lo, hi);
    if j == hi {
        assert(agg_events_from(a, sub, j - lo, qs, qe) == a);
        lemma_agg_tail_zero(a, evs, hi, qs, qe);
    } else {
        assert(sub[j - lo] == evs[j]);
        lemma_agg_subrange(
            agg_event(a, evs[j], qs, qe),
            evs,
            lo,
            hi,
            j + 1,
            qs,
            qe,
        );
    }
}

/// The query's narrowing loses nothing: for an in-order, non-overlapping
/// event list, aggregating the slice the lower-bound search selects gives
/// the same sums as a naive re-scan of the whole list clipped to the
/// range.  This is the list the bucket walk collects, so `get_times`,
/// whose contract pins its result to the aggregation of that slice,
/// answers the naive re-scan exactly.
pub proof fn lemma_selection_preserves_aggregate(evs: Seq<CpuEventView>, qs: u64, qe: u64)
    requires
        qs <= qe,
        forall|i: int, j: int|
            0 <= i < j < evs.len() ==> (#[trigger] evs[i]).start_time
                <= (#[trigger] evs[j]).start_time,
        forall|i: int|
            0 <= i < evs.len() - 1 ==> (#[trigger] evs[i]).end_time <= evs[i + 1].start_time,
    ensures
        ({
            let lb_s = lower_bound_spec(evs, qs, 0);
            let s_idx = if lb_s > 0 {
                lb_s - 1
            } else {
                0
            };
            let e_idx = lower_bound_spec(evs, qe, 0);
            spec_aggregate(evs.subrange(s_idx, e_idx), qs, qe) == spec_aggregate(evs, qs, qe)
        }),
{
    let lb_s = lower_bound_spec(evs, qs, 0);
    let s_idx = if lb_s > 0 {
        lb_s - 1
    } else {
        0
    };
    let e_idx = lower_bound_spec(evs, qe, 0);
    crate::time_aggregate::lemma_lower_bound_mono(evs, qs, qe, 0);
    crate::time_aggregate::lemma_lower_bound_range(evs, qs, 0);
    crate::time_aggregate::lemma_lower_bound_range(evs, qe, 0);
    let zero = crate::time_aggregate::agg_zero();

    // Everything before the kept slice ends before the query starts.
    assert forall|m: int| 0 <= m < s_idx implies (#[trigger] evs[m]).end_time < qs by {
        lemma_lower_bound_prefix(evs, qs, 0, m + 1);
        assert(evs[m + 1].start_time < qs);
        assert(evs[m].end_time <= evs[m + 1].start_time);
    }
    // Everything from the slice's end starts at or past the query's end.
    assert forall|m: int| e_idx <= m < evs.len() implies (#[trigger] evs[m]).start_time >= qe by {
        lemma_lower_bound_hit(evs, qe, 0);
        if m > e_idx {
            assert(evs[e_idx].start_time <= evs[m].start_time);
        }
    }
    lemma_agg_prefix_zero(zero, evs, 0, s_idx, qs, qe);
    lemma_agg_subrange(zero, evs, s_idx, e_idx, s_idx, qs, qe);
}

// ---------------------------------------------------------------------
// The collection half of the aggregation guarantee: walking the touched
// buckets and skipping stale duplicates recovers exactly the ingested
// events that meet the bucket range, in ingest order.
// ---------------------------------------------------------------------
/// The buckets an in-window event is stamped into.
pub open spec fn covers(ev: CpuEventView, base: int, b: int) -> bool {
    sec_of(ev.start_time) - base <= b <= sec_of(ev.end_time) - base
}

/// Whether an event's bucket span meets the bucket range `[lo, hi]`.
pub open spec fn meets(ev: CpuEventView, base: int, lo: int, hi: int) -> bool {
    lo <= hi && sec_of(ev.start_time) - base <= hi && sec_of(ev.end_time) - base >= lo
}

/// The events stamped into bucket `b`, in ingest order.
pub open spec fn sel_covers(evs: Seq<CpuEventView>, base: int, b: int) -> Seq<CpuEventView>
    decreases evs.len(),
{
    if evs.len() == 0 {
        Seq::empty()
    } else {
        sel_covers(evs.drop_last(), base, b) + (if covers(evs.last(), base, b) {
            seq![evs.last()]
        } else {
            Seq::empty()
        })
    }
}

/// The events meeting the bucket range `[lo, hi]`, in ingest order.
pub open spec fn sel_meets(evs: Seq<CpuEventView>, base: int, lo: int, hi: int) -> Seq<
    CpuEventView,
>
    decreases evs.len(),
{
    if evs.len() == 0 {
        Seq::empty()
    } else {
        sel_meets(evs.drop_last(), base, lo, hi) + (if meets(evs.last(), base, lo, hi) {
            seq![evs.last()]
        } else {
            Seq::empty()
        })
    }
}

/// In-order ingestion within one rolling window: each event spans forward
/// in time and sits inside the window, arrival order never decreases the
/// start, and end times strictly increase (no event ends twice at the
/// same instant).
pub open spec fn events_in_order(evs: Seq<CpuEventView>, base: int) -> bool {
    &&& forall|i: int|
        0 <= i < evs.len() ==> (#[trigger] evs[i]).start_time <= evs[i].end_time
    &&& forall|i: int| 0 <= i < evs.len() ==> base <= sec_of((#[trigger] evs[i]).start_time)
    &&& forall|i: int|
        0 <= i < evs.len() ==> sec_of((#[trigger] evs[i]).end_time) - base < MAX_SEGMENT_SIZE
    &&& forall|i: int| 0 <= i < evs.len() ==> (#[trigger] evs[i]).end_time > 0
    &&& forall|i: int, j: int|
        0 <= i < j < evs.len() ==> (#[trigger] evs[i]).start_time
            <= (#[trigger] evs[j]).start_time
    &&& forall|i: int, j: int|
        0 <= i < j < evs.len() ==> (#[trigger] evs[i]).end_time < (#[trigger] evs[j]).end_time
}

/// Consecutive events do not overlap.
pub open spec fn events_disjoint(evs: Seq<CpuEventView>) -> bool {
    forall|i: int|
        0 <= i < evs.len() - 1 ==> (#[trigger] evs[i]).end_time <= evs[i + 1].start_time
}

/// Every bucket of the window holds exactly the ingested events stamped
/// into it, in ingest order.
pub open spec fn window_buckets_hold(w: WinView, evs: Seq<CpuEventView>) -> bool {
    forall|b: int|
        0 <= b < MAX_SEGMENT_SIZE ==> (#[trigger] w.segments[b]).cpu_events == sel_covers(
            evs,
            w.base_time as int,
            b,
        )
}

/// The end the next kept event must beat.
pub open spec fn last_end(acc: Seq<CpuEventView>) -> u64 {
    if acc.len() == 0 {
        0u64
    } else {
        acc.last().end_time
    }
}

/// Dropping the last event keeps the order facts.
proof fn lemma_in_order_drop_last(evs: Seq<CpuEventView>, base: int)
    requires
        events_in_order(evs, base),
        evs.len() > 0,
    ensures
        events_in_order(evs.drop_last(), base),
{
    let u = evs.drop_last();
    assert forall|i: int| 0 <= i < u.len() implies (#[trigger] u[i]).start_time <= u[i].end_time
        && base <= sec_of(u[i].start_time) && sec_of(u[i].end_time) - base < MAX_SEGMENT_SIZE
        && u[i].end_time > 0 by {
        assert(u[i] == evs[i]);
    }
    assert forall|i: int, j: int| 0 <= i < j < u.len() implies (#[trigger] u[i]).start_time
        <= (#[trigger] u[j]).start_time && u[i].end_time < u[j].end_time by {
        assert(u[i] == evs[i]);
        assert(u[j] == evs[j]);
    }
}

/// A selection over events none of which cover the bucket is empty.
proof fn lemma_sel_covers_empty(evs: Seq<CpuEventView>, base: int, b: int)
    requires
        forall|i: int| 0 <= i < evs.len() ==> !covers(#[trigger] evs[i], base, b),
    ensures
        sel_covers(evs, base, b) == Seq::<CpuEventView>::empty(),
    decreases evs.len(),
{
    if evs.len() > 0 {
        let u = evs.drop_last();
        assert forall|i: int| 0 <= i < u.len() implies !covers(#[trigger] u[i], base, b) by {
            assert(u[i] == evs[i]);
        }
        lemma_sel_covers_empty(u, base, b);
        assert(!covers(evs.last(), base, b));
        assert(sel_covers(evs, base, b) =~= Seq::<CpuEventView>::empty());
    }
}

/// A selection over an always-false range is empty.
proof fn lemma_sel_meets_empty(evs: Seq<CpuEventView>, base: int, lo: int, hi: int)
    requires
        hi < lo,
    ensures
        sel_meets(evs, base, lo, hi) == Seq::<CpuEventView>::empty(),
    decreases evs.len(),
{
    if evs.len() > 0 {
        lemma_sel_meets_empty(evs.drop_last(), base, lo, hi);
        assert(sel_meets(evs, base, lo, hi) =~= Seq::<CpuEventView>::empty());
    }
}

/// Two ranges an event list cannot tell apart select the same events.
proof fn lemma_sel_meets_congruent(evs: Seq<CpuEventView>, base: int, lo: int, h1: int, h2: int)
    requires
        forall|i: int|
            0 <= i < evs.len() ==> meets(#[trigger] evs[i], base, lo, h1) == meets(
                evs[i],
                base,
                lo,
                h2,
            ),
    ensures
        sel_meets(evs, base, lo, h1) == sel_meets(evs, base, lo, h2),
    decreases evs.len(),
{
    if evs.len() > 0 {
        let u = evs.drop_last();
        assert forall|i: int| 0 <= i < u.len() implies meets(#[trigger] u[i], base, lo, h1)
            == meets(u[i], base, lo, h2) by {
            assert(u[i] == evs[i]);
        }
        lemma_sel_meets_congruent(u, base, lo, h1, h2);
        assert(meets(evs.last(), base, lo, h1) == meets(evs.last(), base, lo, h2));
        assert(sel_meets(evs, base, lo, h1) =~= sel_meets(evs, base, lo, h2));
    }
}

/// Selected events keep any end-time bound of their source.
proof fn lemma_sel_meets_end_lt(evs: Seq<CpuEventView>, base: int, lo: int, hi: int, bound: u64)
    requires
        forall|i: int| 0 <= i < evs.len() ==> (#[trigger] evs[i]).end_time < bound,
    ensures
        forall|j: int|
            0 <= j < sel_meets(evs, base, lo, hi).len() ==> (#[trigger] sel_meets(
                evs,
                base,
                lo,
                hi,
            )[j]).end_time < bound,
    decreases evs.len(),
{
    if evs.len() > 0 {
        let u = evs.drop_last();
        assert forall|i: int| 0 <= i < u.len() implies (#[trigger] u[i]).end_time < bound by {
            assert(u[i] == evs[i]);
        }
        lemma_sel_meets_end_lt(u, base, lo, hi, bound);
        assert(evs.last().end_time < bound);
        let s_u = sel_meets(u, base, lo, hi);
        let s = sel_meets(evs, base, lo, hi);
        assert forall|j: int| 0 <= j < s.len() implies (#[trigger] s[j]).end_time < bound by {
            if j < s_u.len() {
                assert(s[j] == s_u[j]);
            } else {
                assert(s[j] == evs.last());
            }
        }
    }
}

proof fn lemma_sel_covers_end_lt(evs: Seq<CpuEventView>, base: int, b: int, bound: u64)
    requires
        forall|i: int| 0 <= i < evs.len() ==> (#[trigger] evs[i]).end_time < bound,
    ensures
        forall|j: int|
            0 <= j < sel_covers(evs, base, b).len() ==> (#[trigger] sel_covers(
                evs,
                base,
                b,
            )[j]).end_time < bound,
    decreases evs.len(),
{
    if evs.len() > 0 {
        let u = evs.drop_last();
        assert forall|i: int| 0 <= i < u.len() implies (#[trigger] u[i]).end_time < bound by {
            assert(u[i] == evs[i]);
        }
        lemma_sel_covers_end_lt(u, base, b, bound);
        assert(evs.last().end_time < bound);
        let s_u = sel_covers(u, base, b);
        let s = sel_covers(evs, base, b);
        assert forall|j: int| 0 <= j < s.len() implies (#[trigger] s[j]).end_time < bound by {
            if j < s_u.len() {
                assert(s[j] == s_u[j]);
            } else {
                assert(s[j] == evs.last());
            }
        }
    }
}

/// Skipping stale duplicates commutes with appending one more candidate.
proof fn lemma_dedup_push_decomp(
    acc: Seq<CpuEventView>,
    bkt: Seq<CpuEventView>,
    x: CpuEventView,
    j: int,
)
    requires
        0 <= j <= bkt.len(),
    ensures
        crate::time_aggregate::dedup_events(acc, bkt.push(x), j)
            == crate::time_aggregate::dedup_push(
            crate::time_aggregate::dedup_events(acc, bkt, j),
            x,
        ),
    decreases bkt.len() - j,
{
    if j == bkt.len() {
        assert(bkt.push(x)[j] == x);
        assert(crate::time_aggregate::dedup_events(
            crate::time_aggregate::dedup_push(acc, x),
            bkt.push(x),
            j + 1,
        ) == crate::time_aggregate::dedup_push(acc, x));
        assert(crate::time_aggregate::dedup_events(acc, bkt, j) == acc);
    } else {
        assert(bkt.push(x)[j] == bkt[j]);
        lemma_dedup_push_decomp(crate::time_aggregate::dedup_push(acc, bkt[j]), bkt, x, j + 1);
    }
}

/// Division by the second length keeps order.
proof fn lemma_sec_mono(a: u64, b: u64)
    requires
        a <= b,
    ensures
        sec_of(a) <= sec_of(b),
{
    assert(a / 1_000_000_000 <= b / 1_000_000_000) by (nonlinear_arith)
        requires
            a <= b,
    ;
}

/// An event meets `[si, b-1]` exactly when it meets `[si, b-2]` or is
/// stamped into bucket `b-1`.
proof fn lemma_meets_decomp(y: CpuEventView, base: int, si: int, b: int)
    requires
        si <= b - 1,
        y.start_time <= y.end_time,
    ensures
        meets(y, base, si, b - 1) == (meets(y, base, si, b - 2) || covers(y, base, b - 1)),
{
    lemma_sec_mono(y.start_time, y.end_time);
}

/// Candidates none of which beat the accumulated end are all skipped.
proof fn lemma_dedup_all_stale(acc: Seq<CpuEventView>, bkt: Seq<CpuEventView>, j: int)
    requires
        0 <= j <= bkt.len(),
        forall|i: int| 0 <= i < bkt.len() ==> (#[trigger] bkt[i]).end_time <= last_end(acc),
    ensures
        crate::time_aggregate::dedup_events(acc, bkt, j) == acc,
    decreases bkt.len() - j,
{
    if j < bkt.len() {
        assert(bkt[j].end_time <= last_end(acc));
        assert(crate::time_aggregate::dedup_push(acc, bkt[j]) == acc);
        lemma_dedup_all_stale(acc, bkt, j + 1);
    }
}

/// One more bucket folded in: skipping the stale duplicates of the
/// already-collected events recovers exactly the events meeting the
/// range extended by that bucket, in ingest order.
proof fn lemma_dedup_bucket_step(evs: Seq<CpuEventView>, base: int, si: int, b: int)
    requires
        events_in_order(evs, base),
        0 <= si <= b - 1,
    ensures
        crate::time_aggregate::dedup_events(
            sel_meets(evs, base, si, b - 2),
            sel_covers(evs, base, b - 1),
            0,
        ) == sel_meets(evs, base, si, b - 1),
    decreases evs.len(),
{
    let a = sel_meets(evs, base, si, b - 2);
    let bkt = sel_covers(evs, base, b - 1);
    let t = sel_meets(evs, base, si, b - 1);
    if evs.len() == 0 {
        assert(crate::time_aggregate::dedup_events(a, bkt, 0) == a);
        assert(a =~= t);
    } else {
        let u = evs.drop_last();
        let x = evs.last();
        lemma_in_order_drop_last(evs, base);
        lemma_dedup_bucket_step(u, base, si, b);
        let a_u = sel_meets(u, base, si, b - 2);
        let b_u = sel_covers(u, base, b - 1);
        let t_u = sel_meets(u, base, si, b - 1);
        assert forall|i: int| 0 <= i < u.len() implies u[i] == evs[i] && (#[trigger] u[i]).start_time
            <= x.start_time && u[i].end_time < x.end_time && u[i].start_time
            <= u[i].end_time by {
            assert(evs[i].start_time <= evs[evs.len() - 1].start_time);
            assert(evs[i].end_time < evs[evs.len() - 1].end_time);
        }
        assert(x.start_time <= x.end_time && x.end_time > 0);
        lemma_meets_decomp(x, base, si, b);
        let cx = covers(x, base, b - 1);
        let mx2 = meets(x, base, si, b - 2);
        if !cx {
            if mx2 {
                // No earlier event is stamped into bucket b-1: one would
                // force this event to be stamped there too.
                assert forall|i: int| 0 <= i < u.len() implies !covers(
                    #[trigger] u[i],
                    base,
                    b - 1,
                ) by {
                    if covers(u[i], base, b - 1) {
                        lemma_sec_mono(u[i].end_time, x.end_time);
                        assert(sec_of(x.end_time) - base >= b - 1);
                        assert(sec_of(x.start_time) - base <= b - 2);
                        assert(covers(x, base, b - 1));
                        assert(false);
                    }
                }
                lemma_sel_covers_empty(u, base, b - 1);
                assert(bkt =~= Seq::<CpuEventView>::empty());
                assert(crate::time_aggregate::dedup_events(a, bkt, 0) == a);
                assert forall|i: int| 0 <= i < u.len() implies meets(
                    #[trigger] u[i],
                    base,
                    si,
                    b - 1,
                ) == meets(u[i], base, si, b - 2) by {
                    lemma_meets_decomp(u[i], base, si, b);
                }
                lemma_sel_meets_congruent(u, base, si, b - 1, b - 2);
                assert(a =~= a_u.push(x));
                assert(t =~= t_u.push(x));
                assert(a =~= t);
            } else {
                assert(a =~= a_u);
                assert(bkt =~= b_u);
                assert(t =~= t_u);
            }
        } else {
            assert(bkt =~= b_u.push(x));
            lemma_dedup_push_decomp(a, b_u, x, 0);
            if mx2 {
                assert(a =~= a_u.push(x));
                lemma_sel_covers_end_lt(u, base, b - 1, x.end_time);
                assert(last_end(a) == x.end_time);
                assert forall|i: int| 0 <= i < b_u.len() implies (#[trigger] b_u[i]).end_time
                    <= last_end(a) by {}
                lemma_dedup_all_stale(a, b_u, 0);
                assert(crate::time_aggregate::dedup_push(a, x) == a);
                // Earlier events stamped into bucket b-1 already meet the
                // shorter range, so the extended range selects the same
                // earlier events.
                assert forall|i: int| 0 <= i < u.len() implies meets(
                    #[trigger] u[i],
                    base,
                    si,
                    b - 1,
                ) == meets(u[i], base, si, b - 2) by {
                    lemma_meets_decomp(u[i], base, si, b);
                    if covers(u[i], base, b - 1) && !meets(u[i], base, si, b - 2) {
                        lemma_sec_mono(u[i].start_time, x.start_time);
                        assert(sec_of(u[i].start_time) - base <= b - 2);
                        assert(sec_of(u[i].end_time) - base >= b - 1);
                        assert(meets(u[i], base, si, b - 2));
                        assert(false);
                    }
                }
                lemma_sel_meets_congruent(u, base, si, b - 1, b - 2);
                assert(t =~= t_u.push(x));
                assert(a =~= t);
            } else {
                assert(a =~= a_u);
                lemma_sel_meets_end_lt(u, base, si, b - 1, x.end_time);
                if t_u.len() == 0 {
                    assert(last_end(t_u) == 0);
                } else {
                    assert(t_u[t_u.len() - 1].end_time < x.end_time);
                }
                assert(crate::time_aggregate::dedup_push(t_u, x) =~= t_u.push(x));
                assert(t =~= t_u.push(x));
            }
        }
    }
}

/// Selected events keep any start-time bound of their source.
proof fn lemma_sel_meets_start_le(evs: Seq<CpuEventView>, base: int, lo: int, hi: int, bound: u64)
    requires
        forall|i: int| 0 <= i < evs.len() ==> (#[trigger] evs[i]).start_time <= bound,
    ensures
        forall|j: int|
            0 <= j < sel_meets(evs, base, lo, hi).len() ==> (#[trigger] sel_meets(
                evs,
                base,
                lo,
                hi,
            )[j]).start_time <= bound,
    decreases evs.len(),
{
    if evs.len() > 0 {
        let u = evs.drop_last();
        assert forall|i: int| 0 <= i < u.len() implies (#[trigger] u[i]).start_time <= bound by {
            assert(u[i] == evs[i]);
        }
        lemma_sel_meets_start_le(u, base, lo, hi, bound);
        let s_u = sel_meets(u, base, lo, hi);
        let s = sel_meets(evs, base, lo, hi);
        assert forall|j: int| 0 <= j < s.len() implies (#[trigger] s[j]).start_time <= bound by {
            if j < s_u.len() {
                assert(s[j] == s_u[j]);
            } else {
                assert(s[j] == evs.last());
            }
        }
    }
}

proof fn lemma_sel_meets_end_le(evs: Seq<CpuEventView>, base: int, lo: int, hi: int, bound: u64)
    requires
        forall|i: int| 0 <= i < evs.len() ==> (#[trigger] evs[i]).end_time <= bound,
    ensures
        forall|j: int|
            0 <= j < sel_meets(evs, base, lo, hi).len() ==> (#[trigger] sel_meets(
                evs,
                base,
                lo,
                hi,
            )[j]).end_time <= bound,
    decreases evs.len(),
{
    if evs.len() > 0 {
        let u = evs.drop_last();
        assert forall|i: int| 0 <= i < u.len() implies (#[trigger] u[i]).end_time <= bound by {
            assert(u[i] == evs[i]);
        }
        lemma_sel_meets_end_le(u, base, lo, hi, bound);
        let s_u = sel_meets(u, base, lo, hi);
        let s = sel_meets(evs, base, lo, hi);
        assert forall|j: int| 0 <= j < s.len() implies (#[trigger] s[j]).end_time <= bound by {
            if j < s_u.len() {
                assert(s[j] == s_u[j]);
            } else {
                assert(s[j] == evs.last());
            }
        }
    }
}

/// A selection from an in-order list keeps its starts in order.
proof fn lemma_sel_meets_sorted(evs: Seq<CpuEventView>, base: int, lo: int, hi: int)
    requires
        events_in_order(evs, base),
    ensures
        forall|i: int, j: int|
            0 <= i < j < sel_meets(evs, base, lo, hi).len() ==> (#[trigger] sel_meets(
                evs,
                base,
                lo,
                hi,
            )[i]).start_time <= (#[trigger] sel_meets(evs, base, lo, hi)[j]).start_time,
    decreases evs.len(),
{
    if evs.len() > 0 {
        let u = evs.drop_last();
        let x = evs.last();
        lemma_in_order_drop_last(evs, base);
        lemma_sel_meets_sorted(u, base, lo, hi);
        assert forall|i: int| 0 <= i < u.len() implies (#[trigger] u[i]).start_time
            <= x.start_time by {
            assert(u[i] == evs[i]);
            assert(evs[i].start_time <= evs[evs.len() - 1].start_time);
        }
        lemma_sel_meets_start_le(u, base, lo, hi, x.start_time);
        let s_u = sel_meets(u, base, lo, hi);
        let s = sel_meets(evs, base, lo, hi);
        assert forall|i: int, j: int| 0 <= i < j < s.len() implies (#[trigger] s[i]).start_time
            <= (#[trigger] s[j]).start_time by {
            assert(s[i] == s_u[i]);
            if j < s_u.len() {
                assert(s[j] == s_u[j]);
            } else {
                assert(s[j] == x);
            }
        }
    }
}

/// A selection from a non-overlapping in-order list stays non-overlapping.
#[verifier::rlimit(100)]
proof fn lemma_sel_meets_nonoverlap(evs: Seq<CpuEventView>, base: int, lo: int, hi: int)
    requires
        events_in_order(evs, base),
        events_disjoint(evs),
    ensures
        forall|i: int|
            0 <= i < sel_meets(evs, base, lo, hi).len() - 1 ==> (#[trigger] sel_meets(
                evs,
                base,
                lo,
                hi,
            )[i]).end_time <= sel_meets(evs, base, lo, hi)[i + 1].start_time,
    decreases evs.len(),
{
    if evs.len() > 0 {
        let u = evs.drop_last();
        let x = evs.last();
        lemma_in_order_drop_last(evs, base);
        assert forall|i: int| 0 <= i < u.len() - 1 implies (#[trigger] u[i]).end_time <= u[i
            + 1].start_time by {
            assert(u[i] == evs[i]);
            assert(u[i + 1] == evs[i + 1]);
        }
        lemma_sel_meets_nonoverlap(u, base, lo, hi);
        assert forall|i: int| 0 <= i < u.len() implies (#[trigger] u[i]).end_time
            <= x.start_time by {
            assert(u[i] == evs[i]);
            assert(evs[i].end_time <= evs[i + 1].start_time);
            if i + 1 < evs.len() - 1 {
                assert(evs[i + 1].start_time <= evs[evs.len() - 1].start_time);
            }
        }
        lemma_sel_meets_end_le(u, base, lo, hi, x.start_time);
        let s_u = sel_meets(u, base, lo, hi);
        let s = sel_meets(evs, base, lo, hi);
        assert forall|i: int| 0 <= i < s.len() - 1 implies (#[trigger] s[i]).end_time <= s[i
            + 1].start_time by {
            assert(s[i] == s_u[i]);
            if i + 1 < s_u.len() {
                assert(s[i + 1] == s_u[i + 1]);
            } else {
                assert(s[i + 1] == x);
            }
        }
    }
}

/// Folding one appended event equals folding the rest and then it.
proof fn lemma_agg_push(
    a: AggView,
    evs: Seq<CpuEventView>,
    x: CpuEventView,
    j: int,
    qs: u64,
    qe: u64,
)
    requires
        0 <= j <= evs.len(),
    ensures
        agg_events_from(a, evs.push(x), j, qs, qe) == agg_event(
            agg_events_from(a, evs, j, qs, qe),
            x,
            qs,
            qe,
        ),
    decreases evs.len() - j,
{
    if j == evs.len() {
        assert(evs.push(x)[j] == x);
        assert(agg_events_from(agg_event(a, x, qs, qe), evs.push(x), j + 1, qs, qe) == agg_event(
            a,
            x,
            qs,
            qe,
        ));
        assert(agg_events_from(a, evs, j, qs, qe) == a);
    } else {
        assert(evs.push(x)[j] == evs[j]);
        lemma_agg_push(agg_event(a, evs[j], qs, qe), evs, x, j + 1, qs, qe);
    }
}

/// Events outside the selected bucket range contribute nothing, so the
/// selection aggregates exactly like the whole list.
proof fn lemma_agg_sel_meets_from(
    a: AggView,
    evs: Seq<CpuEventView>,
    base: int,
    lo: int,
    hi: int,
    qs: u64,
    qe: u64,
)
    requires
        forall|i: int|
            0 <= i < evs.len() ==> meets(#[trigger] evs[i], base, lo, hi) || evs[i].start_time > qe
                || evs[i].end_time < qs,
    ensures
        agg_events_from(a, sel_meets(evs, base, lo, hi), 0, qs, qe) == agg_events_from(
            a,
            evs,
            0,
            qs,
            qe,
        ),
    decreases evs.len(),
{
    if evs.len() == 0 {
        assert(sel_meets(evs, base, lo, hi) =~= evs);
    } else {
        let u = evs.drop_last();
        let x = evs.last();
        assert(evs =~= u.push(x));
        assert forall|i: int| 0 <= i < u.len() implies meets(#[trigger] u[i], base, lo, hi)
            || u[i].start_time > qe || u[i].end_time < qs by {
            assert(u[i] == evs[i]);
        }
        lemma_agg_sel_meets_from(a, u, base, lo, hi, qs, qe);
        lemma_agg_push(a, u, x, 0, qs, qe);
        if meets(x, base, lo, hi) {
            assert(sel_meets(evs, base, lo, hi) =~= sel_meets(u, base, lo, hi).push(x));
            lemma_agg_push(a, sel_meets(u, base, lo, hi), x, 0, qs, qe);
        } else {
            assert(sel_meets(evs, base, lo, hi) =~= sel_meets(u, base, lo, hi));
            assert(x.start_time > qe || x.end_time < qs);
            assert(agg_event(agg_events_from(a, u, 0, qs, qe), x, qs, qe) == agg_events_from(
                a,
                u,
                0,
                qs,
                qe,
            ));
        }
    }
}

/// Walking the touched buckets and skipping stale duplicates recovers
/// exactly the in-order ingested events that meet the bucket range.
pub proof fn lemma_collect_selects(
    segs: Seq<SegmentView>,
    base: int,
    evs: Seq<CpuEventView>,
    si: int,
    b: int,
)
    requires
        events_in_order(evs, base),
        segs.len() == MAX_SEGMENT_SIZE,
        forall|c: int|
            0 <= c < MAX_SEGMENT_SIZE ==> (#[trigger] segs[c]).cpu_events == sel_covers(
                evs,
                base,
                c,
            ),
        0 <= si <= b <= MAX_SEGMENT_SIZE,
    ensures
        crate::time_aggregate::collect_upto(segs, si, b) == sel_meets(evs, base, si, b - 1),
    decreases b - si,
{
    if b <= si {
        lemma_sel_meets_empty(evs, base, si, b - 1);
    } else {
        lemma_collect_selects(segs, base, evs, si, b - 1);
        assert(segs[b - 1].cpu_events == sel_covers(evs, base, b - 1));
        lemma_dedup_bucket_step(evs, base, si, b);
    }
}

/// Stamping one in-window event extends the bucket model: afterwards
/// every bucket holds exactly the events of the extended ingest list
/// stamped into it.  The stamped range is the event's own bucket span,
/// as `put_transition` returns it when no rebase fires.
pub proof fn lemma_stamp_extends_buckets(w: WinView, evs: Seq<CpuEventView>, ev: CpuEventView)
    requires
        window_buckets_hold(w, evs),
        w.segments.len() == MAX_SEGMENT_SIZE,
        w.base_time as int <= sec_of(ev.start_time),
        sec_of(ev.end_time) - w.base_time < MAX_SEGMENT_SIZE,
        ev.start_time <= ev.end_time,
    ensures
        window_buckets_hold(
            crate::cpu_analyzer::stamp_cpu_win(
                w,
                ev,
                sec_of(ev.start_time) - w.base_time,
                sec_of(ev.end_time) - w.base_time,
            ),
            evs.push(ev),
        ),
{
    let base = w.base_time as int;
    let lo = sec_of(ev.start_time) - w.base_time;
    let hi = sec_of(ev.end_time) - w.base_time;
    lemma_sec_mono(ev.start_time, ev.end_time);
    let w1 = crate::cpu_analyzer::stamp_cpu_win(w, ev, lo as int, hi as int);
    assert forall|b: int| 0 <= b < MAX_SEGMENT_SIZE implies (#[trigger] w1.segments[b]).cpu_events
        == sel_covers(evs.push(ev), base, b) by {
        assert(evs.push(ev).drop_last() =~= evs);
        assert(evs.push(ev).last() == ev);
        if lo <= b <= hi {
            assert(covers(ev, base, b));
            assert(w1.segments[b].cpu_events =~= sel_covers(evs, base, b).push(ev));
            assert(sel_covers(evs.push(ev), base, b) =~= sel_covers(evs, base, b).push(ev));
        } else {
            assert(!covers(ev, base, b));
            assert(w1.segments[b].cpu_events == sel_covers(evs, base, b));
            assert(sel_covers(evs.push(ev), base, b) =~= sel_covers(evs, base, b));
        }
    }
}

/// The aggregation guarantee, whole: for events ingested in order and
/// without overlap into one rolling window (no rebase in between), the
/// query's answer equals a naive re-scan of the ingested events clipped
/// to the queried range.  Overlapping events are left out deliberately:
/// there the one-element backward adjustment of the narrowing can drop a
/// contributor.
#[verifier::rlimit(100)]
pub proof fn lemma_get_times_matches_rescan(
    w: WinView,
    evs: Seq<CpuEventView>,
    qs: u64,
    qe: u64,
)
    requires
        win_ok(w),
        events_in_order(evs, w.base_time as int),
        events_disjoint(evs),
        window_buckets_hold(w, evs),
        qs <= qe,
    ensures
        crate::time_aggregate::spec_get_times(w, qs, qe) == spec_aggregate(evs, qs, qe),
{
    let base = w.base_time as int;
    let start_sec = sec_of(qs);
    let end_sec = sec_of(qe);
    lemma_sec_mono(qs, qe);
    let zero = crate::time_aggregate::agg_zero();
    assert(agg_events_from(zero, Seq::<CpuEventView>::empty(), 0, qs, qe) == zero);
    if end_sec < w.base_time {
        // The range ends before the window: every ingested event starts
        // after it.
        assert forall|i: int| 0 <= i < evs.len() implies (#[trigger] evs[i]).start_time >= qe by {
            if evs[i].start_time < qe {
                lemma_sec_mono(evs[i].start_time, qe);
                assert(false);
            }
        }
        lemma_agg_tail_zero(zero, evs, 0, qs, qe);
    } else if start_sec > w.base_time + MAX_SEGMENT_SIZE {
        // The range starts past the window: every ingested event ends
        // before it.
        assert forall|i: int| 0 <= i < evs.len() implies (#[trigger] evs[i]).end_time < qs by {
            if evs[i].end_time >= qs {
                lemma_sec_mono(qs, evs[i].end_time);
                assert(false);
            }
        }
        lemma_agg_prefix_zero(zero, evs, 0, evs.len() as int, qs, qe);
        assert(agg_events_from(zero, evs, evs.len() as int, qs, qe) == zero);
    } else {
        let si = if start_sec > w.base_time {
            (start_sec - w.base_time) as int
        } else {
            0
        };
        let ei = crate::cpu_analyzer::spec_min(
            (end_sec - w.base_time) as int,
            MAX_SEGMENT_SIZE as int - 1,
        );
        assert(0 <= si && si <= ei + 1 && ei + 1 <= MAX_SEGMENT_SIZE);
        lemma_collect_selects(w.segments, base, evs, si, ei + 1);
        let collected = sel_meets(evs, base, si, ei);
        lemma_sel_meets_sorted(evs, base, si, ei);
        lemma_sel_meets_nonoverlap(evs, base, si, ei);
        lemma_selection_preserves_aggregate(collected, qs, qe);
        // Events outside the touched bucket range cannot intersect the
        // queried time range.
        assert forall|i: int| 0 <= i < evs.len() implies meets(#[trigger] evs[i], base, si, ei)
            || evs[i].start_time > qe || evs[i].end_time < qs by {
            let y = evs[i];
            lemma_sec_mono(y.start_time, y.end_time);
            if !meets(y, base, si, ei) {
                if si > ei {
                    // Only possible with the range's start at the window's
                    // very edge; everything ends before the range.
                    if y.end_time >= qs {
                        lemma_sec_mono(qs, y.end_time);
                        assert(false);
                    }
                } else if sec_of(y.start_time) - base > ei {
                    if (end_sec - w.base_time) as int <= MAX_SEGMENT_SIZE as int - 1 {
                        if y.start_time <= qe {
                            lemma_sec_mono(y.start_time, qe);
                            assert(false);
                        }
                    } else {
                        assert(sec_of(y.end_time) - base < MAX_SEGMENT_SIZE);
                        assert(false);
                    }
                } else {
                    assert(sec_of(y.end_time) - base < si);
                    if si == 0 {
                        assert(false);
                    } else {
                        if y.end_time >= qs {
                            lemma_sec_mono(qs, y.end_time);
                            assert(false);
                        }
                    }
                }
            }
        }
        lemma_agg_sel_meets_from(zero, evs, base, si, ei, qs, qe);
    }
}

} // verus!
