//! Configuration model for the agent.
//!
//! Every knob is carried as a plain value; optional fields fall back to
//! the `default_*` functions below.  Reading a configuration file is the
//! surrounding program's business: it hands the library a fully decoded
//! `GlobalConfig`.

use vstd::prelude::*;

verus! {

/// Top-level configuration: one section per component group.
pub struct GlobalConfig {
    pub analyzers: Analyzers,
    pub processors: Processors,
    pub exporters: Exporters,
}

pub struct Analyzers {
    pub trace_id_analyzer: TraceIdAnalyzerCfg,
    pub cpu_analyzer: CpuAnalyzerCfg,
}

pub struct CpuAnalyzerCfg {
    pub segment_size: Option<i32>,
}

pub struct TraceIdAnalyzerCfg {
    pub open_java_trace_sampling: bool,
    /// Milliseconds; a request lasting longer counts as slow.
    pub java_trace_slow_time: Option<u64>,
    /// How many sweep cycles an unmatched request survives.
    pub java_trace_wait_second: Option<i32>,
}

pub struct Processors {
    pub sample_processor: SampleProcessorCfg,
}

pub struct SampleProcessorCfg {
    pub sample_trace_repeat_num: Option<i32>,
    /// Seconds a tail-base confirmed trace id is held.
    pub sample_trace_wait_time: Option<u64>,
    /// Seconds a profiled (pid, url) pair stays in cool-down.
    pub sample_url_hit_duration: Option<u64>,
    /// Milliseconds; shorter requests are dropped outright.
    pub sample_trace_ignore_threshold: Option<u64>,
    /// Milliseconds; a fixed slow threshold, 0 meaning "use percentiles".
    pub sample_trace_threshold: Option<u64>,
    pub promethues_query_interval: Option<i32>,
    /// Percentile inflation in percent (110 stands for a 1.1 multiplier).
    pub query_p9x_increase_percent: Option<u64>,
    pub store_profile_tailbase: bool,
    pub receiver_ip: Option<String>,
    pub receiver_port: Option<u16>,
}

pub struct Exporters {
    pub camera_exporter: CameraExporterCfg,
    pub metric_exporter: MetricExporterCfg,
}

pub struct CameraExporterCfg {
    pub storage: Option<String>,
    pub file_config: FileConfig,
    pub es_config: EsConfig,
}

pub struct FileConfig {
    pub storage_path: Option<String>,
    pub max_file_count_each_process: Option<u32>,
}

pub struct EsConfig {
    pub es_host: Option<String>,
    pub index_suffix: Option<String>,
}

pub struct MetricExporterCfg {
    pub exporter_type: Option<String>,
    pub prometheus: PrometheusCfg,
}

pub struct PrometheusCfg {
    pub port: Option<u16>,
}

pub fn default_segment_size() -> (r: Option<i32>)
    ensures
        r == Some(40i32),
{
    Some(40)
}

pub fn default_java_trace_slow_time() -> (r: Option<u64>)
    ensures
        r == Some(500u64),
{
    Some(500)
}

pub fn default_java_trace_wait_second() -> (r: Option<i32>)
    ensures
        r == Some(30i32),
{
    Some(30)
}

pub fn default_sample_trace_repeat_num() -> (r: Option<i32>)
    ensures
        r == Some(3i32),
{
    Some(3)
}

pub fn default_sample_trace_wait_time() -> (r: Option<u64>)
    ensures
        r == Some(30u64),
{
    Some(30)
}

pub fn default_sample_url_hit_duration() -> (r: Option<u64>)
    ensures
        r == Some(5u64),
{
    Some(5)
}

pub fn default_sample_trace_ignore_threshold() -> (r: Option<u64>)
    ensures
        r == Some(100u64),
{
    Some(100)
}

pub fn default_sample_trace_threshold() -> (r: Option<u64>)
    ensures
        r == Some(0u64),
{
    Some(0)
}

pub fn default_promethues_query_interval() -> (r: Option<i32>)
    ensures
        r == Some(30i32),
{
    Some(30)
}

pub fn default_query_p9x_increase_percent() -> (r: Option<u64>)
    ensures
        r == Some(110u64),
{
    Some(110)
}

pub fn default_receiver_ip() -> (r: Option<String>)
    ensures
        r matches Some(s) && s@ == "127.0.0.1"@,
{
    Some("127.0.0.1".to_owned())
}

pub fn default_receiver_port() -> (r: Option<u16>)
    ensures
        r == Some(29090u16),
{
    Some(29090)
}

pub fn default_storage() -> (r: Option<String>)
    ensures
        r matches Some(s) && s@ == "file"@,
{
    Some("file".to_owned())
}

pub fn default_storage_path() -> (r: Option<String>)
    ensures
        r matches Some(s) && s@ == "/tmp/kindling"@,
{
    Some("/tmp/kindling".to_owned())
}

pub fn default_max_file_count_each_process() -> (r: Option<u32>)
    ensures
        r == Some(50u32),
{
    Some(50)
}

pub fn default_es_host() -> (r: Option<String>)
    ensures
        r matches Some(s) && s@ == "http://10.10.10.10:9200"@,
{
    Some("http://10.10.10.10:9200".to_owned())
}

pub fn default_index_suffix() -> (r: Option<String>)
    ensures
        r matches Some(s) && s@ == "dev"@,
{
    Some("dev".to_owned())
}

pub fn default_metric_exporter_type() -> (r: Option<String>)
    ensures
        r matches Some(s) && s@ == "prometheus"@,
{
    Some("prometheus".to_owned())
}

pub fn default_prometheus_port() -> (r: Option<u16>)
    ensures
        r == Some(9500u16),
{
    Some(9500)
}

} // verus!
