//! Tests for the trace correlator and its record model.

use camera_agent::config::TraceIdAnalyzerCfg;
use camera_agent::k8scache::K8sMetaDataCache;
use camera_agent::traceid_analyzer::{read_str_int_value, read_string_value, TraceIdAnalyzer};
use camera_agent::traceid_model::{ThreadTraceIdEvent, TraceIdEvents};

#[test]
fn add_trace_event() {
    let tid: u32 = 100;
    let enter_event: ThreadTraceIdEvent = ThreadTraceIdEvent {
        timestamp: 100000000,
        url: String::from("Undertow"),
        tid,
        ..ThreadTraceIdEvent::default()
    };
    let enter_url_event = ThreadTraceIdEvent {
        timestamp: 100000010,
        url: String::from("Get /http"),
        tid,
        ..ThreadTraceIdEvent::default()
    };
    let exit_event = ThreadTraceIdEvent {
        timestamp: 101000000,
        apm_type: "skywalking".to_owned(),
        thread_type: 1,
        parent_span_id: String::from(""),
        span_id: String::from(""),
        error: 0,
        tid,
        container_id: String::from(""),
        ..ThreadTraceIdEvent::default()
    };

    let mut trace_events = TraceIdEvents::new(
        1,
        "d3755d293ac24ad2899044853e521056.46.16793970149120001".to_string(),
        false,
        5,
        enter_event,
    );
    trace_events.update_trace_event(enter_url_event, false);
    trace_events.event.merge_response(exit_event);

    let request = trace_events.event;
    assert_eq!(request.get_duration(), 1000000);
}

fn analyzer() -> TraceIdAnalyzer {
    let cfg = TraceIdAnalyzerCfg {
        open_java_trace_sampling: true,
        java_trace_slow_time: Some(500),
        java_trace_wait_second: Some(2),
    };
    TraceIdAnalyzer::new(
        &cfg,
        "node-a".to_owned(),
        "10.0.0.1".to_owned(),
        K8sMetaDataCache::new(),
    )
}

fn enter(ts: u64, tid: u32, url: &str) -> ThreadTraceIdEvent {
    ThreadTraceIdEvent {
        timestamp: ts,
        url: url.to_owned(),
        tid,
        ..ThreadTraceIdEvent::default()
    }
}

fn exit(ts: u64, tid: u32, thread_type: u64) -> ThreadTraceIdEvent {
    ThreadTraceIdEvent {
        timestamp: ts,
        apm_type: "skywalking".to_owned(),
        thread_type,
        tid,
        ..ThreadTraceIdEvent::default()
    }
}

#[test]
fn two_enters_one_exit_once() {
    let mut a = analyzer();
    let id = "trace-1".to_owned();
    a.process_request(enter(1000, 7, "GET /a"), 5, 7, id.clone(), false);
    a.process_request(enter(1200, 7, "GET /b"), 5, 7, id.clone(), true);
    assert_eq!(a.java_traces.len(), 1);
    assert_eq!(a.java_traces[0].events.event.url.as_str(), "GET /b");
    assert!(a.java_traces[0].events.is_sampled);

    let (record, is_sampled) = a.process_response(exit(2000, 7, 0), 5, 7, id.clone(), 0);
    let record = record.expect("the business exit resolves the request");
    assert!(is_sampled);
    assert_eq!(record.duration, 1000);
    assert_eq!(record.content_key.as_str(), "GET /b");
    assert_eq!(record.node_name.as_str(), "node-a");

    let (second, _) = a.process_response(exit(2000, 7, 0), 5, 7, id, 0);
    assert!(second.is_none());
    assert_eq!(a.java_traces.len(), 0);
}

#[test]
fn non_business_exit_keeps_entry() {
    let mut a = analyzer();
    let id = "trace-2".to_owned();
    a.process_request(enter(1000, 9, "GET /x"), 5, 9, id.clone(), false);
    let (record, _) = a.process_response(exit(2000, 9, 1), 5, 9, id.clone(), 0);
    assert!(record.is_none());
    assert_eq!(a.java_traces.len(), 1);
    let (record, _) = a.process_response(exit(2500, 9, 0), 5, 9, id, 0);
    assert!(record.is_some());
}

#[test]
fn pending_expiry_is_exact() {
    // With a two-cycle budget, the entry survives exactly two sweeps.
    let mut a = analyzer();
    let id = "trace-3".to_owned();
    a.process_request(enter(1000, 3, "GET /slow"), 5, 3, id.clone(), false);
    assert_eq!(a.clear_expire_traces(), 0);
    assert_eq!(a.java_traces.len(), 1);
    assert_eq!(a.clear_expire_traces(), 0);
    assert_eq!(a.java_traces.len(), 1);
    assert_eq!(a.clear_expire_traces(), 1);
    assert_eq!(a.java_traces.len(), 0);
    let (record, _) = a.process_response(exit(2000, 3, 0), 5, 3, id, 0);
    assert!(record.is_none());
}

#[test]
fn metric_batch_flushes_at_one_thousand() {
    let mut a = analyzer();
    let mut flushed = None;
    for k in 0..1000u64 {
        let id = format!("trace-{}", k);
        a.process_request(enter(1000, 1, "GET /m"), 5, 1, id.clone(), false);
        let (record, _) = a.process_response(exit(2000, 1, 0), 5, 1, id, 0);
        let record = record.unwrap();
        let got = a.cache_metric_signal(&record);
        if got.is_some() {
            assert_eq!(k, 999);
            flushed = got;
        }
    }
    let batch = flushed.expect("the thousandth signal flushes the batch");
    assert_eq!(batch.len(), 1000);
    assert_eq!(a.batch_metrics.len(), 0);
}

#[test]
fn decode_helpers() {
    assert_eq!(read_string_value(Some(b"GET /users")).as_str(), "GET /users");
    assert_eq!(read_string_value(None).as_str(), "");
    assert_eq!(read_str_int_value(Some(b"42")), Some(42));
    assert_eq!(read_str_int_value(Some(b"0")), Some(0));
    assert_eq!(read_str_int_value(Some(b"18446744073709551615")), Some(u64::MAX));
    assert_eq!(read_str_int_value(Some(b"18446744073709551616")), None);
    assert_eq!(read_str_int_value(Some(b"4x2")), None);
    assert_eq!(read_str_int_value(Some(b"")), None);
    assert_eq!(read_str_int_value(None), None);
}

#[test]
fn histogram_sample_carries_the_request_attributes() {
    let mut a = analyzer();
    let id = "trace-h".to_owned();
    a.process_request(enter(1000, 2, "GET /h"), 5, 2, id.clone(), false);
    let (record, _) = a.process_response(exit(3000, 2, 0), 5, 2, id, 0);
    let record = record.unwrap();
    let (name, value, labels) = a.send_trace_metric_via_promethues(&record);
    assert_eq!(name.as_str(), "kindling_span_trace_duration_nanoseconds");
    assert_eq!(value, 2000);
    assert_eq!(labels.len(), 11);
    assert_eq!(labels[0].key.as_str(), "pid");
    assert_eq!(labels[0].value.as_str(), "5");
    assert_eq!(labels[1].key.as_str(), "content_key");
    assert_eq!(labels[1].value.as_str(), "GET /h");
    assert_eq!(labels[2].key.as_str(), "is_error");
    assert_eq!(labels[2].value.as_str(), "false");
}
