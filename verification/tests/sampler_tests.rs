//! Tests for the sample-decision engine and the retry-safe id queue.

use camera_agent::config::SampleProcessorCfg;
use camera_agent::p9x_cache::P9xEntry;
use camera_agent::processor::SampleProcessor;
use camera_agent::sampler::{SampleTrace, UnSendIds};
use camera_agent::traceid_model::TraceEvent;

fn cfg(threshold_ms: u64, ignore_ms: u64) -> SampleProcessorCfg {
    SampleProcessorCfg {
        sample_trace_repeat_num: Some(3),
        sample_trace_wait_time: Some(30),
        sample_url_hit_duration: Some(5),
        sample_trace_ignore_threshold: Some(ignore_ms),
        sample_trace_threshold: Some(threshold_ms),
        promethues_query_interval: Some(30),
        query_p9x_increase_percent: Some(110),
        store_profile_tailbase: true,
        receiver_ip: Some("127.0.0.1".to_owned()),
        receiver_port: Some(29090),
    }
}

fn record(trace_id: &str, pid: u32, url: &str, duration_ns: u64) -> TraceEvent {
    TraceEvent {
        pid,
        tid: 1,
        protocol: "http".to_owned(),
        content_key: url.to_owned(),
        http_url: url.to_owned(),
        is_slow: false,
        is_server: true,
        is_error: false,
        is_profiled: false,
        is_normal: false,
        p90: 0,
        trace_id: trace_id.to_owned(),
        apm_type: "skywalking".to_owned(),
        apm_span_id: String::new(),
        container_id: "c1".to_owned(),
        container_name: String::new(),
        workload_name: String::new(),
        workload_kind: String::new(),
        pod_ip: String::new(),
        pod_name: String::new(),
        namespace: String::new(),
        duration: duration_ns,
        end_time: 2_000_000_000_000,
        node_name: "node-a".to_owned(),
        node_ip: "10.0.0.1".to_owned(),
        offset_ts: 0,
    }
}

#[test]
fn counts_always_match_queue_length() {
    let mut u = UnSendIds::new(3);
    u.cache_ids("a".to_owned());
    u.cache_ids("b".to_owned());
    u.mark_unsent(2);
    assert_eq!(u.get_to_send_count(), 2);
    assert_eq!(u.counts[0], 2);
    u.cache_ids("c".to_owned());
    u.mark_unsent(3);
    assert_eq!(u.counts[0] + u.counts[1], 3);
    assert_eq!(u.get_to_send_count(), 3);
    u.mark_sent(3);
    assert_eq!(u.get_to_send_count(), 0);
    assert_eq!(u.size, 0);
    assert_eq!(u.last_num, 0);
}

#[test]
fn full_ring_drops_only_from_the_front() {
    let mut u = UnSendIds::new(2);
    u.cache_ids("a".to_owned());
    u.cache_ids("b".to_owned());
    u.mark_unsent(2);
    u.cache_ids("c".to_owned());
    u.mark_unsent(3);
    u.cache_ids("d".to_owned());
    // The ring is full: the oldest cycle's two ids fall off the front.
    u.mark_unsent(4);
    let left = u.get_to_send_ids(10);
    assert_eq!(left.len(), 2);
    assert_eq!(left[0].as_str(), "c");
    assert_eq!(left[1].as_str(), "d");
    assert_eq!(u.counts[0] + u.counts[1], 2);
}

#[test]
fn noise_below_ignore_threshold_is_dropped() {
    // Ignore threshold 100 ms; a 1 ms record never reaches the cache.
    let mut p = SampleProcessor::new(&cfg(500, 100), "node-a".to_owned());
    let out = p.consume(record("t-1", 3, "GET /a", 1_000_000), false, 1_000);
    assert!(out.signal.is_none());
    assert!(out.trace.is_none());
    assert_eq!(p.sample_cache.trace_cache.len(), 0);
    assert_eq!(p.sample_cache.sampled_trace_ids.len(), 0);
}

#[test]
fn slow_record_is_profiled_once_and_id_registered() {
    // Fixed threshold 500 ms; a 700 ms record not yet sampled is profiled
    // exactly once and its id joins the tail-base set.
    let mut p = SampleProcessor::new(&cfg(500, 100), "node-a".to_owned());
    let out = p.consume(record("t-2", 3, "GET /b", 700_000_000), false, 1_000);
    let signal = out.signal.expect("head-based sampling stores profiling");
    assert!(signal.is_profiled);
    assert_eq!(signal.trace_id.as_str(), "t-2");
    assert!(out.trace.is_some());
    let st = SampleTrace::new(record("t-2", 3, "GET /b", 1), false, 0);
    assert!(p.sample_cache.is_tail_base_sampled(&st));
    assert_eq!(p.sample_cache.un_send_ids.get_to_send_count(), 1);

    // The (pid, endpoint) is now in cool-down: the same endpoint parks
    // instead of profiling again.
    let out2 = p.consume(record("t-3", 3, "GET /b", 700_000_000), false, 2_000);
    assert!(out2.signal.is_none());
    assert!(out2.trace.is_none());
    assert_eq!(p.sample_cache.trace_cache.len(), 1);
}

#[test]
fn fast_record_is_parked_with_budget() {
    let mut p = SampleProcessor::new(&cfg(500, 100), "node-a".to_owned());
    let out = p.consume(record("t-4", 3, "GET /c", 200_000_000), false, 1_000);
    assert!(out.signal.is_none());
    assert!(out.trace.is_none());
    assert_eq!(p.sample_cache.trace_cache.len(), 1);
    assert_eq!(p.sample_cache.trace_cache[0].repeat_num, 3);
}

#[test]
fn failed_exchange_retries_the_same_batch() {
    // The exchange fails once, then succeeds: the same batch goes out both
    // times and leaves the queue only after the success.
    let mut p = SampleProcessor::new(&cfg(500, 100), "node-a".to_owned());
    p.consume(record("t-5", 3, "GET /d", 700_000_000), false, 1_000);
    p.consume(record("t-6", 3, "GET /e", 700_000_000), false, 1_000);

    let (_q1, batch1) = p.sample_cache.prepare_trace_ids();
    assert_eq!(batch1.len(), 2);
    p.sample_cache.apply_send_failure(batch1.len() as i32);

    let (_q2, batch2) = p.sample_cache.prepare_trace_ids();
    assert_eq!(batch1, batch2);

    p.sample_cache.apply_send_success(
        batch2.len() as i32,
        77,
        &vec!["t-9".to_owned()],
        5_000,
    );
    let (q3, batch3) = p.sample_cache.prepare_trace_ids();
    assert_eq!(q3, 77);
    assert_eq!(batch3.len(), 0);
    // The response's confirmed id joined the tail-base set.
    let st = SampleTrace::new(record("t-9", 3, "GET /f", 1), false, 0);
    assert!(p.sample_cache.is_tail_base_sampled(&st));
}

#[test]
fn sweep_profiles_confirmed_records_and_burns_budget() {
    let mut p = SampleProcessor::new(&cfg(500, 100), "node-a".to_owned());
    // Parked: too fast for head-based sampling.
    p.consume(record("t-7", 3, "GET /g", 200_000_000), false, 1_000);
    assert_eq!(p.sample_cache.trace_cache.len(), 1);

    // First sweep: not confirmed, budget drops.
    let out = p.sample_cache.check_tail_base_traces(2_000);
    assert_eq!(out.signals.len(), 0);
    assert_eq!(out.traces.len(), 0);
    assert_eq!(p.sample_cache.trace_cache.len(), 1);
    assert_eq!(p.sample_cache.trace_cache[0].repeat_num, 2);

    // The verdict service confirms the id; the next sweep stores it.
    p.sample_cache.apply_send_success(0, 1, &vec!["t-7".to_owned()], 3_000);
    let out = p.sample_cache.check_tail_base_traces(4_000);
    assert_eq!(out.traces.len(), 1);
    assert_eq!(p.sample_cache.trace_cache.len(), 0);
    // Not slow, so no tail-base profiling signal despite the flag.
    assert_eq!(out.signals.len(), 0);
}

#[test]
fn exhausted_budget_drops_the_record() {
    let mut p = SampleProcessor::new(&cfg(500, 100), "node-a".to_owned());
    p.consume(record("t-8", 3, "GET /h", 200_000_000), false, 1_000);
    for _ in 0..3 {
        p.sample_cache.check_tail_base_traces(2_000);
    }
    assert_eq!(p.sample_cache.trace_cache.len(), 1);
    assert_eq!(p.sample_cache.trace_cache[0].repeat_num, 0);
    p.sample_cache.check_tail_base_traces(2_000);
    assert_eq!(p.sample_cache.trace_cache.len(), 0);
}

#[test]
fn cooldown_expires_and_reports_the_endpoint() {
    // Cool-down lasts five seconds; a sweep past that reports the endpoint
    // so instrumentation can resume.
    let mut p = SampleProcessor::new(&cfg(500, 100), "node-a".to_owned());
    p.consume(record("t-10", 3, "GET /i", 700_000_000), false, 1_000);
    assert_eq!(p.sample_cache.url_hits.len(), 1);
    let out = p.sample_cache.check_tail_base_traces(2_000);
    assert_eq!(out.expired_urls.len(), 0);
    let out = p.sample_cache.check_tail_base_traces(1_000 + 6_000_000_000);
    assert_eq!(out.expired_urls.len(), 1);
    assert_eq!(out.expired_urls[0].pid, 3);
    assert_eq!(out.expired_urls[0].url.as_str(), "GET /i");
    assert_eq!(p.sample_cache.url_hits.len(), 0);
}

#[test]
fn percentile_decides_when_no_fixed_threshold() {
    // No fixed threshold; the stored percentile, inflated by ten percent,
    // decides.
    let mut p = SampleProcessor::new(&cfg(0, 100), "node-a".to_owned());
    p.sample_cache.p9x_cache.update_p9x_by_grpc(
        vec![
            P9xEntry {
                container_id: "c1".to_owned(),
                url: "GET /j".to_owned(),
                value: 500_000_000,
            },
        ],
        100,
    );
    // 500 ms * 1.1 = 550 ms: a 540 ms record is not slow, a 560 ms one is.
    let out = p.consume(record("t-11", 3, "GET /j", 540_000_000), false, 1_000);
    assert!(out.signal.is_none());
    assert_eq!(p.sample_cache.trace_cache[0].event.p90, 500_000_000);
    let out = p.consume(record("t-12", 4, "GET /j", 560_000_000), false, 1_000);
    assert!(out.signal.is_some());
}

#[test]
fn baseline_profile_sent_once_per_endpoint() {
    let mut p = SampleProcessor::new(&cfg(500, 100), "node-a".to_owned());
    let st = SampleTrace::new(record("t-13", 3, "GET /k", 1_000_000), false, 0);
    assert!(p.sample_cache.is_normal_sampled(&st, 1_000));
    assert!(!p.sample_cache.is_normal_sampled(&st, 2_000));
    let signal = p.sample_cache.store_normal_profiling(&st);
    assert_eq!(signal.trace_id.as_str(), "t-13");
}
