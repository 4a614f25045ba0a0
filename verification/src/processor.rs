//! The sample decision entry point: every completed request record comes
//! through [`SampleProcessor::consume`], which drops noise below the
//! ignore threshold and otherwise decides between head-based sampling, a
//! tail-base profile, or parking the record for the sweep.

use vstd::prelude::*;

use crate::config::SampleProcessorCfg;
use crate::export_model::{trace_of, Trace};
use crate::p9x_cache::p9x_of;
use crate::sampler::{
    contains_id, spec_hit_upsert, spec_is_slow, has_url_hit, IdTimeView, SampleCache, SampleTrace,
    SampleTraceView, UnSendIdsView,
};
use crate::traceid_model::{TraceEvent, TraceEventView};

verus! {

/// What one consumed record hands back: at most one profiling signal for
/// the CPU store and at most one stored trace record.
pub struct ConsumeOutcome {
    pub signal: Option<TraceEvent>,
    pub trace: Option<Trace>,
}

pub struct SampleProcessor {
    pub sample_cache: SampleCache,
    /// Re-evaluation budget a parked record starts with.
    pub trace_retry_num: i32,
    /// Nanoseconds; shorter records are dropped outright.
    pub ignore_threshold: u64,
    /// Sweep cycles between percentile refreshes.
    pub query_grpc_periods: i32,
}

impl SampleProcessor {
    pub open spec fn wf(&self) -> bool {
        self.sample_cache.wf()
    }

    /// `host_name` identifies this host toward the verdict service.
    pub fn new(cfg: &SampleProcessorCfg, host_name: String) -> (r: Self)
        requires
            cfg.sample_trace_repeat_num matches Some(n) && n >= 1,
            cfg.sample_trace_wait_time matches Some(t) && t <= 18_000_000_000,
            cfg.sample_url_hit_duration matches Some(d) && d <= 18_000_000_000,
            cfg.sample_trace_threshold matches Some(t) && t <= 18_000_000_000_000,
            cfg.query_p9x_increase_percent matches Some(p) && p <= 1_000_000,
            cfg.sample_trace_ignore_threshold matches Some(t) && t <= 18_000_000_000_000,
            cfg.promethues_query_interval matches Some(q),
        ensures
            r.wf(),
            cfg.sample_trace_repeat_num matches Some(n) ==> r.trace_retry_num == n,
            cfg.sample_trace_ignore_threshold matches Some(t) ==> r.ignore_threshold == t
                * 1000000,
            cfg.promethues_query_interval matches Some(q) ==> r.query_grpc_periods == q,
            r.sample_cache.cached().len() == 0,
            r.sample_cache.ids().len() == 0,
            r.sample_cache.hits().len() == 0,
            r.sample_cache.un_send_ids@.to_send_ids.len() == 0,
    {
        let retry = match cfg.sample_trace_repeat_num {
            Some(n) => n,
            None => 1,
        };
        let ignore = match cfg.sample_trace_ignore_threshold {
            Some(t) => t,
            None => 100,
        };
        let periods = match cfg.promethues_query_interval {
            Some(q) => q,
            None => 30,
        };
        SampleProcessor {
            sample_cache: SampleCache::new(cfg, host_name),
            trace_retry_num: retry,
            ignore_threshold: ignore * 1000000,
            query_grpc_periods: periods,
        }
    }

    /// Decides one completed record.  Below the ignore threshold nothing
    /// happens at all.  Otherwise, a record not sampled at entry that
    /// passes the head-based test is profiled and stored at once; a record
    /// whose trace id the verdict service already confirmed takes the
    /// tail-base path; everything else is parked for re-evaluation with
    /// the configured retry budget.
    pub fn consume(&mut self, event: TraceEvent, is_sampled: bool, now_ns: u64) -> (r:
        ConsumeOutcome)
        requires
            old(self).wf(),
            event.duration <= event.end_time,
        ensures
            final(self).wf(),
            final(self).trace_retry_num == old(self).trace_retry_num,
            final(self).ignore_threshold == old(self).ignore_threshold,
            final(self).query_grpc_periods == old(self).query_grpc_periods,
            old(self).sample_cache.same_config(&final(self).sample_cache),
            final(self).sample_cache.un_send_ids@.counts.len() == old(
                self,
            ).sample_cache.un_send_ids@.counts.len(),
            final(self).sample_cache.query_time == old(self).sample_cache.query_time,
            final(self).sample_cache.p9x_cache.table() == old(self).sample_cache.p9x_cache.table(),
            final(self).sample_cache.normal_sent_cache.deep_view() == old(
                self,
            ).sample_cache.normal_sent_cache.deep_view(),
            ({
                let cache = old(self).sample_cache;
                let st0 = SampleTraceView {
                    repeat_num: old(self).trace_retry_num,
                    is_sampled,
                    event: event@,
                };
                let hit = has_url_hit(cache.hits(), event@.pid, event@.content_key);
                let p9x = p9x_of(cache.p9x_cache.table(), event@.container_id, event@.content_key);
                let slow = spec_is_slow(
                    cache.trace_threshold,
                    cache.p9x_increase_percent,
                    p9x,
                    event@,
                );
                let confirmed = contains_id(cache.ids(), event@.trace_id);
                if event@.duration < old(self).ignore_threshold {
                    // Noise below the ignore threshold never reaches the cache.
                    &&& final(self).sample_cache.cached() == cache.cached()
                    &&& final(self).sample_cache.ids() == cache.ids()
                    &&& final(self).sample_cache.hits() == cache.hits()
                    &&& final(self).sample_cache.un_send_ids@ == cache.un_send_ids@
                    &&& r.signal is None
                    &&& r.trace is None
                } else if !is_sampled && !hit && slow {
                    // Head-based sampling: profile and store now, exactly
                    // once; the trace id joins the tail-base set and is
                    // queued for the exchange once, never twice.
                    let ev1 = TraceEventView { is_profiled: true, p90: p9x, ..event@ };
                    &&& r.signal matches Some(te) && te@ == ev1
                    &&& r.trace matches Some(tr) && tr@ == trace_of(ev1)
                    &&& final(self).sample_cache.cached() == cache.cached()
                    &&& contains_id(final(self).sample_cache.ids(), event@.trace_id)
                    &&& final(self).sample_cache.hits() == spec_hit_upsert(
                        cache.hits(),
                        event@.pid,
                        event@.content_key,
                        now_ns,
                    )
                    &&& if contains_id(cache.ids(), event@.trace_id) {
                        final(self).sample_cache.ids() == cache.ids()
                            && final(self).sample_cache.un_send_ids@ == cache.un_send_ids@
                    } else {
                        final(self).sample_cache.ids() == cache.ids().push(
                            IdTimeView { trace_id: event@.trace_id, time_ns: now_ns },
                        ) && if cache.un_send_ids@.to_send_ids.len() < i32::MAX {
                            final(self).sample_cache.un_send_ids@ == (UnSendIdsView {
                                to_send_ids: cache.un_send_ids@.to_send_ids.push(event@.trace_id),
                                ..cache.un_send_ids@
                            })
                        } else {
                            final(self).sample_cache.un_send_ids@ == cache.un_send_ids@
                        }
                    }
                } else if confirmed {
                    // Tail-base path: the trace record is always stored;
                    // profiling is exported only for a slow record under
                    // the tail-base export flag, opening the cool-down.
                    let ev1 = TraceEventView { p90: p9x, ..event@ };
                    let profiled = slow && cache.store_profile_tailbase && !is_sampled;
                    &&& final(self).sample_cache.ids() == cache.ids()
                    &&& final(self).sample_cache.un_send_ids@ == cache.un_send_ids@
                    &&& final(self).sample_cache.cached() == cache.cached()
                    &&& if profiled {
                        &&& r.signal matches Some(te) && te@ == (TraceEventView {
                            is_profiled: true,
                            ..ev1
                        })
                        &&& final(self).sample_cache.hits() == spec_hit_upsert(
                            cache.hits(),
                            event@.pid,
                            event@.content_key,
                            now_ns,
                        )
                        &&& r.trace matches Some(tr) && tr@ == trace_of(
                            TraceEventView { is_profiled: true, ..ev1 },
                        )
                    } else {
                        &&& r.signal is None
                        &&& final(self).sample_cache.hits() == cache.hits()
                        &&& r.trace matches Some(tr) && tr@ == trace_of(ev1)
                    }
                } else {
                    // Parked for the sweep, with the full retry budget.
                    &&& final(self).sample_cache.cached() == cache.cached().push(
                        SampleTraceView {
                            repeat_num: old(self).trace_retry_num,
                            is_sampled,
                            event: if !is_sampled && !hit {
                                TraceEventView { p90: p9x, ..event@ }
                            } else {
                                event@
                            },
                        },
                    )
                    &&& final(self).sample_cache.ids() == cache.ids()
                    &&& final(self).sample_cache.hits() == cache.hits()
                    &&& final(self).sample_cache.un_send_ids@ == cache.un_send_ids@
                    &&& r.signal is None
                    &&& r.trace is None
                }
            }),
    {
        if event.duration < self.ignore_threshold {
            return ConsumeOutcome { signal: None, trace: None };
        }
        let mut trace = SampleTrace::new(event, is_sampled, self.trace_retry_num);
        if !is_sampled && self.sample_cache.is_sampled(&mut trace) {
            let signal = self.sample_cache.store_profiling(&mut trace, false, now_ns);
            let stored = self.sample_cache.store_trace(&trace);
            ConsumeOutcome { signal, trace: Some(stored) }
        } else if self.sample_cache.is_tail_base_sampled(&trace) {
            let (signal, stored) = self.sample_cache.tail_base_profiling(&mut trace, now_ns);
            ConsumeOutcome { signal, trace: Some(stored) }
        } else {
            self.sample_cache.cache_sample_trace(trace);
            ConsumeOutcome { signal: None, trace: None }
        }
    }
}

} // verus!
