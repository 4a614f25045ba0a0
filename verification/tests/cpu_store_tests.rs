//! Tests for the sliding-window CPU event store and its aggregation.

use camera_agent::cpu_analyzer::{read_string_value, read_u64_values, read_u8_values, CpuAnalyzer};
use camera_agent::exporter_send::{clear_tid, delay_send_metrics};
use camera_agent::segment::{CpuEvent, JavaFutexEvent, Segment, TransactionIdEvent};
use camera_agent::time_aggregate::{get_metric_name, CpuTimeType, MetricSuffix};
use camera_agent::circle_queue::CircleQueue;
use camera_agent::config as cfg;
use camera_agent::k8scache::K8sMetaDataCache;
use camera_agent::traceid_model::SignalEvent;

/// A base second inside the accepted absolute-timestamp bounds.
const BASE: u64 = 1_600_000_100;
const NS: u64 = 1_000_000_000;

fn cpu_event(start: u64, end: u64, subs: &[(u64, u8)], runq_us: &[u64]) -> CpuEvent {
    CpuEvent {
        start_time: start,
        end_time: end,
        type_specs: subs.iter().map(|s| s.0).collect(),
        runq_latency: runq_us.to_vec(),
        time_type: subs.iter().map(|s| s.1).collect(),
        on_info: String::new(),
        off_info: String::new(),
        log: String::new(),
        stack: String::new(),
    }
}

#[test]
fn one_event_aggregates_exactly() {
    // One second-long event with a single 5 ms on-cpu sub-interval,
    // queried over exactly its own second.
    let mut ca = CpuAnalyzer::new();
    let start = BASE * NS;
    let end = (BASE + 1) * NS;
    let ev = cpu_event(start, end, &[(5_000_000, 0)], &[0]);
    ca.ingest_cpu_event(1, 1, "worker", ev);

    let agg = ca.get_times(1, 1, start, end).expect("the window has caught up");
    assert_eq!(agg.times[0], 5_000_000);
    assert_eq!(agg.counts[0], 1);
    assert_eq!(agg.runq_duration, 0);
    for k in 1..7 {
        assert_eq!(agg.times[k], 0);
        assert_eq!(agg.counts[k], 0);
    }
}

#[test]
fn query_ahead_of_data_is_absent() {
    let mut ca = CpuAnalyzer::new();
    let start = BASE * NS;
    let end = (BASE + 1) * NS;
    ca.ingest_cpu_event(1, 1, "worker", cpu_event(start, end, &[(1_000, 0)], &[0]));
    assert!(ca.get_times(1, 1, start, end + NS).is_none());
    assert!(ca.get_times(2, 2, start, end).is_none());
}

#[test]
fn runq_latency_is_split_out() {
    // A blocked sub-interval of 4 ms with 1 ms of run-queue latency: the
    // latency moves to the run-queue sum.
    let mut ca = CpuAnalyzer::new();
    let start = BASE * NS;
    let end = (BASE + 1) * NS;
    let ev = cpu_event(start, end, &[(4_000_000, 3)], &[1_000]);
    ca.ingest_cpu_event(1, 1, "worker", ev);
    let agg = ca.get_times(1, 1, start, end).unwrap();
    assert_eq!(agg.times[3], 3_000_000);
    assert_eq!(agg.counts[3], 1);
    assert_eq!(agg.runq_duration, 1_000_000);

    // Run-queue latency past the whole sub-interval is clamped to it.
    let mut ca = CpuAnalyzer::new();
    let ev = cpu_event(start, end, &[(4_000_000, 3)], &[10_000]);
    ca.ingest_cpu_event(1, 1, "worker", ev);
    let agg = ca.get_times(1, 1, start, end).unwrap();
    assert_eq!(agg.times[3], 0);
    assert_eq!(agg.counts[3], 1);
    assert_eq!(agg.runq_duration, 4_000_000);
}

#[test]
fn bucket_spanning_event_counts_once() {
    // An event covering two buckets is stamped into both but aggregated
    // once.
    let mut ca = CpuAnalyzer::new();
    let start = BASE * NS + 500_000_000;
    let end = (BASE + 2) * NS;
    let ev = cpu_event(start, end, &[(1_500_000_000, 0)], &[0]);
    ca.ingest_cpu_event(1, 1, "worker", ev);
    let agg = ca.get_times(1, 1, BASE * NS, end).unwrap();
    assert_eq!(agg.counts[0], 1);
    assert_eq!(agg.times[0], 1_500_000_000);
}

#[test]
fn slide_rebase_keeps_overlap_queryable() {
    // Events in buckets 0 and 25, then one landing in bucket 40: the
    // window slides by 20 and the bucket-25 event stays queryable while
    // the bucket-0 event ages out.
    let mut ca = CpuAnalyzer::new();
    let e0s = BASE * NS;
    ca.ingest_cpu_event(1, 1, "worker", cpu_event(e0s, e0s + 500_000_000, &[(1_000_000, 0)], &[0]));
    let e1s = (BASE + 25) * NS;
    let e1e = e1s + 500_000_000;
    ca.ingest_cpu_event(1, 1, "worker", cpu_event(e1s, e1e, &[(2_000_000, 0)], &[0]));
    assert_eq!(ca.cpu_pid_events[0].base_time, BASE);

    let e2s = (BASE + 40) * NS + 100_000_000;
    let e2e = e2s + 400_000_000;
    ca.ingest_cpu_event(1, 1, "worker", cpu_event(e2s, e2e, &[(3_000_000, 0)], &[0]));
    assert_eq!(ca.cpu_pid_events[0].base_time, BASE + 20);

    let agg = ca.get_times(1, 1, e1s, e1s + NS).unwrap();
    assert_eq!(agg.times[0], 2_000_000);
    assert_eq!(agg.counts[0], 1);

    // The bucket that slid out answers empty.
    let agg = ca.get_times(1, 1, e0s, e0s + NS).unwrap();
    assert_eq!(agg.counts[0], 0);
}

#[test]
fn reset_rebase_discards_history() {
    // An event far past the window discards the old content entirely.
    let mut ca = CpuAnalyzer::new();
    let e1s = BASE * NS;
    ca.ingest_cpu_event(1, 1, "worker", cpu_event(e1s, e1s + NS, &[(2_000_000, 0)], &[0]));
    let e2s = (BASE + 100) * NS;
    ca.ingest_cpu_event(1, 1, "worker", cpu_event(e2s, e2s + NS, &[(3_000_000, 0)], &[0]));
    assert_eq!(ca.cpu_pid_events[0].base_time, BASE + 100);
    let agg = ca.get_times(1, 1, e1s, e1s + NS).unwrap();
    assert_eq!(agg.counts[0], 0);
}

#[test]
fn clock_garbage_is_dropped() {
    let mut ca = CpuAnalyzer::new();
    // Before the lower bound.
    ca.ingest_cpu_event(1, 1, "worker", cpu_event(100 * NS, 101 * NS, &[(5_000_000, 0)], &[0]));
    assert_eq!(ca.cpu_pid_events.len(), 0);
    // Past the upper bound.
    ca.ingest_cpu_event(1, 1, "worker", cpu_event(u64::MAX - 10, u64::MAX, &[(5_000_000, 0)], &[0]));
    assert_eq!(ca.cpu_pid_events.len(), 0);
    // Mismatched parallel arrays.
    ca.ingest_cpu_event(
        1,
        1,
        "worker",
        cpu_event(BASE * NS, (BASE + 1) * NS, &[(5_000_000, 0), (1, 0)], &[]),
    );
    assert_eq!(ca.cpu_pid_events.len(), 0);
}

#[test]
fn exited_thread_is_evicted_after_grace() {
    let mut ca = CpuAnalyzer::new();
    let s = BASE * NS;
    ca.ingest_cpu_event(4, 9, "worker", cpu_event(s, s + NS, &[(1_000, 0)], &[0]));
    assert_eq!(ca.cpu_pid_events.len(), 1);
    ca.trim_exited_thread(4, 9);
    // Inside the grace period nothing happens; past it the window leaves.
    let exit_time = ca.tid_exit_queue[0].exit_time;
    ca.tid_delete_at(exit_time + 1_000, 10_000);
    assert_eq!(ca.cpu_pid_events.len(), 1);
    ca.tid_delete_at(exit_time + 20_000, 10_000);
    assert_eq!(ca.cpu_pid_events.len(), 0);
    assert_eq!(ca.tid_exit_queue.len(), 0);
    clear_tid(&mut ca, 10_000);
}

#[test]
fn pending_metric_signal_answered_when_data_arrives() {
    let mut ca = CpuAnalyzer::new();
    let s = BASE * NS;
    let signal = SignalEvent {
        pid: 1,
        tid: 1,
        content_key: "GET /a".to_owned(),
        container_id: "c1".to_owned(),
        start_time: s,
        end_time: s + NS,
    };
    let records = ca.handle_metric_signal(vec![signal]);
    assert_eq!(records.len(), 0);
    assert_eq!(ca.metric_signals.len(), 1);

    ca.ingest_cpu_event(1, 1, "worker", cpu_event(s, s + NS, &[(5_000_000, 0)], &[0]));
    let records = delay_send_metrics(&mut ca);
    assert_eq!(ca.metric_signals.len(), 0);
    // Seven duration and seven count records; run-queue time was zero.
    assert_eq!(records.len(), 14);
    assert_eq!(records[0].name.as_str(), "kindling_profiling_cpu_duration_nanoseconds");
    assert_eq!(records[0].value, 5_000_000);
    assert_eq!(records[1].name.as_str(), "kindling_profiling_cpu_count");
    assert_eq!(records[1].value, 1);
    assert_eq!(records[0].pid, 1);
    assert_eq!(records[0].content_key.as_str(), "GET /a");
}

#[test]
fn metric_names_cover_every_category() {
    assert_eq!(
        get_metric_name(&CpuTimeType::OnCpu, MetricSuffix::Duration),
        "kindling_profiling_cpu_duration_nanoseconds"
    );
    assert_eq!(get_metric_name(&CpuTimeType::Epoll, MetricSuffix::Count), "kindling_profiling_epoll_count");
    assert_eq!(CpuTimeType::from_usize(0), Some(CpuTimeType::OnCpu));
    assert_eq!(CpuTimeType::from_usize(6), Some(CpuTimeType::Epoll));
    assert_eq!(CpuTimeType::from_usize(7), None);
}

#[test]
fn profiling_signal_exports_the_touched_buckets() {
    let mut ca = CpuAnalyzer::new();
    let s = BASE * NS;
    ca.ingest_cpu_event(6, 2, "worker", cpu_event(s, s + NS, &[(5_000_000, 0)], &[0]));

    let mut te = camera_agent::traceid_model::TraceEvent {
        pid: 6,
        tid: 2,
        protocol: "http".to_owned(),
        content_key: "GET /p".to_owned(),
        http_url: "GET /p".to_owned(),
        is_slow: true,
        is_server: true,
        is_error: false,
        is_profiled: true,
        is_normal: true,
        p90: 0,
        trace_id: "t-20".to_owned(),
        apm_type: "skywalking".to_owned(),
        apm_span_id: String::new(),
        container_id: "c1".to_owned(),
        container_name: String::new(),
        workload_name: String::new(),
        workload_kind: String::new(),
        pod_ip: String::new(),
        pod_name: String::new(),
        namespace: String::new(),
        duration: NS,
        end_time: s + NS,
        node_name: "node-a".to_owned(),
        node_ip: "10.0.0.1".to_owned(),
        offset_ts: 5,
    };
    // The event's end sits on the bucket boundary, so two buckets carry it.
    let bundles = ca.handle_profiling_signal(&te);
    assert_eq!(bundles.len(), 2);
    assert_eq!(bundles[0].name.as_str(), "camera_event_group");
    assert_eq!(bundles[0].labels.pid, 6);
    assert_eq!(bundles[0].labels.tid, 2);
    assert_eq!(bundles[0].labels.thread_name.as_str(), "worker");
    assert_eq!(bundles[0].labels.cpu_events.len(), 1);
    assert_eq!(bundles[0].labels.offset_ts, 5);
    assert_eq!(bundles[0].labels.is_sent, 0);

    // A second export of the same range skips nothing but marks came
    // through: the bucket now carries the sent flag.
    let bundles = ca.handle_profiling_signal(&te);
    assert_eq!(bundles[0].labels.is_sent, 1);

    // A process-wide signal reaches the same thread's window.
    te.is_normal = false;
    let bundles = ca.handle_profiling_signal(&te);
    assert_eq!(bundles.len(), 2);
}

#[test]
fn byte_decoders() {
    let mut bytes = Vec::new();
    bytes.extend_from_slice(&7u64.to_le_bytes());
    bytes.extend_from_slice(&u64::MAX.to_le_bytes());
    assert_eq!(read_u64_values(&bytes), vec![7, u64::MAX]);
    assert_eq!(read_u8_values(&[1, 2, 3]), vec![1, 2, 3]);
    assert_eq!(read_string_value(Some(b"java-thread")).as_str(), "java-thread");
    assert_eq!(read_string_value(None).as_str(), "");
}

#[test]
fn recenter_rebase_centers_on_the_event_end() {
    // Only the end overruns the window: the window re-centres so the
    // event's end lands at the midpoint.
    let mut ca = CpuAnalyzer::new();
    let e1s = BASE * NS;
    ca.ingest_cpu_event(1, 1, "worker", cpu_event(e1s, e1s + NS, &[(1_000, 0)], &[0]));
    let e2s = (BASE + 10) * NS;
    let e2e = (BASE + 50) * NS;
    ca.ingest_cpu_event(1, 1, "worker", cpu_event(e2s, e2e, &[(40_000_000_000, 0)], &[0]));
    assert_eq!(ca.cpu_pid_events[0].base_time, BASE + 30);
}

#[test]
fn ring_construction_and_direct_access() {
    let mut q = CircleQueue::new(4);
    assert_eq!(q.len(), 4);
    assert!(q.get_by_index(3).is_some());
    assert!(q.get_by_index(4).is_none());
    q.update_by_index(2, Segment::new(100, 200));
    assert_eq!(q.get_by_index(2).unwrap().start_time, 100);
    q.update_by_moved_index(0, 2);
    assert_eq!(q.get_by_index(0).unwrap().start_time, 100);
    assert_eq!(q.get_by_index(2).unwrap().start_time, 0);
    q.clear();
    assert_eq!(q.get_by_index(0).unwrap().start_time, 0);
}

#[test]
fn configured_defaults() {
    assert_eq!(cfg::default_segment_size(), Some(40));
    assert_eq!(cfg::default_java_trace_slow_time(), Some(500));
    assert_eq!(cfg::default_java_trace_wait_second(), Some(30));
    assert_eq!(cfg::default_sample_trace_repeat_num(), Some(3));
    assert_eq!(cfg::default_sample_trace_wait_time(), Some(30));
    assert_eq!(cfg::default_sample_url_hit_duration(), Some(5));
    assert_eq!(cfg::default_sample_trace_ignore_threshold(), Some(100));
    assert_eq!(cfg::default_sample_trace_threshold(), Some(0));
    assert_eq!(cfg::default_promethues_query_interval(), Some(30));
    assert_eq!(cfg::default_query_p9x_increase_percent(), Some(110));
    assert_eq!(cfg::default_receiver_ip().unwrap().as_str(), "127.0.0.1");
    assert_eq!(cfg::default_receiver_port(), Some(29090));
    assert_eq!(cfg::default_storage().unwrap().as_str(), "file");
    assert_eq!(cfg::default_storage_path().unwrap().as_str(), "/tmp/kindling");
    assert_eq!(cfg::default_max_file_count_each_process(), Some(50));
    assert_eq!(cfg::default_es_host().unwrap().as_str(), "http://10.10.10.10:9200");
    assert_eq!(cfg::default_index_suffix().unwrap().as_str(), "dev");
    assert_eq!(cfg::default_metric_exporter_type().unwrap().as_str(), "prometheus");
    assert_eq!(cfg::default_prometheus_port(), Some(9500));
}

#[test]
fn pod_lookup_answers_empty_metadata() {
    let cache = K8sMetaDataCache::new();
    let info = cache.get_k8s_pod_info("10.0.0.1", "c1");
    assert_eq!(info.container_name.as_str(), "");
    assert_eq!(info.namespace.as_str(), "");
}

#[test]
fn clock_reads_give_values() {
    assert!(camera_agent::clock::now_unix_ns() > 0);
    assert!(!camera_agent::clock::local_now_string().is_empty());
}

#[test]
fn sub_interval_is_clipped_at_both_ends() {
    // A ten-second sub-interval queried over one second in its middle
    // contributes exactly the one-second overlap.
    let mut ca = CpuAnalyzer::new();
    let start = BASE * NS;
    let end = (BASE + 10) * NS;
    let ev = cpu_event(start, end, &[(10 * NS, 0)], &[0]);
    ca.ingest_cpu_event(1, 1, "worker", ev);
    let qs = (BASE + 2) * NS;
    let qe = (BASE + 3) * NS;
    let agg = ca.get_times(1, 1, qs, qe).unwrap();
    assert_eq!(agg.times[0], NS);
    assert_eq!(agg.counts[0], 1);
}

#[test]
fn out_of_order_ingest_keeps_queries_answerable() {
    // A late event with an earlier end must not regress the window's
    // high-water mark: the query up to the later end stays answerable.
    let mut ca = CpuAnalyzer::new();
    let s0 = BASE * NS;
    ca.ingest_cpu_event(1, 1, "worker", cpu_event(s0, s0 + NS, &[(1_000_000, 0)], &[0]));
    let s1 = (BASE + 5) * NS;
    ca.ingest_cpu_event(1, 1, "worker", cpu_event(s1, s1 + NS, &[(2_000_000, 0)], &[0]));
    let s2 = (BASE + 2) * NS;
    ca.ingest_cpu_event(1, 1, "worker", cpu_event(s2, s2 + NS, &[(3_000_000, 0)], &[0]));
    assert_eq!(ca.cpu_pid_events[0].latest_time, s1 + NS);
    let agg = ca.get_times(1, 1, s0, s1 + NS).unwrap();
    assert_eq!(agg.times[0], 6_000_000);
    assert_eq!(agg.counts[0], 3);
}

#[test]
fn garbage_timestamps_rejected_on_every_ingest_path() {
    let mut ca = CpuAnalyzer::new();
    ca.ingest_java_futex_event(
        2,
        2,
        "worker",
        JavaFutexEvent { start_time: 100 * NS, end_time: 101 * NS, data_val: String::new() },
    );
    assert_eq!(ca.cpu_pid_events.len(), 0);
    ca.ingest_transaction_id_event(
        2,
        2,
        "worker",
        TransactionIdEvent {
            timestamp: 100 * NS,
            trace_id: "t".to_owned(),
            is_entry: "1".to_owned(),
        },
    );
    assert_eq!(ca.cpu_pid_events.len(), 0);
    // In-bounds events on the same paths do create the window.
    ca.ingest_java_futex_event(
        2,
        2,
        "worker",
        JavaFutexEvent {
            start_time: BASE * NS,
            end_time: BASE * NS + 1_000,
            data_val: String::new(),
        },
    );
    assert_eq!(ca.cpu_pid_events.len(), 1);
}
