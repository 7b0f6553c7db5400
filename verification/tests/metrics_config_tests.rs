use enrichment_pipeline::config::{initialise_consumer, initialise_producer, join, Config};
use enrichment_pipeline::metrics::{span_ms, throughput_per_sec, LatencyHistogram};

fn s(v: &str) -> String {
    v.to_string()
}

fn strings(vs: &[&str]) -> Vec<String> {
    vs.iter().map(|v| v.to_string()).collect()
}

fn sample_config() -> Config {
    Config {
        kafka_addresses: strings(&["broker-1:9092", "broker-2:9092"]),
        kafka_topic: s("raw-records"),
        output_topic: s("enriched-records"),
        group_id: s("enrichment-consumer-1"),
        target_language: s("English"),
        max_in_flight: 64,
        drain_timeout_ms: 5000,
    }
}

#[test]
fn latency_span_is_monotonic_safe() {
    assert_eq!(span_ms(100, 350), 250);
    assert_eq!(span_ms(350, 100), 0);
    assert_eq!(span_ms(7, 7), 0);
}

#[test]
fn throughput_exact_value() {
    assert_eq!(throughput_per_sec(1000, 10_000, 1500, 20_000), 50);
    assert_eq!(throughput_per_sec(0, 0, 3, 1000), 3);
}

#[test]
fn throughput_never_negative_on_reset() {
    assert_eq!(throughput_per_sec(1500, 10_000, 100, 20_000), 0);
    assert_eq!(throughput_per_sec(100, 20_000, 200, 20_000), 0);
    assert_eq!(throughput_per_sec(100, 20_000, 200, 19_000), 0);
}

#[test]
fn histogram_buckets_latencies() {
    let mut h = LatencyHistogram::new(vec![10, 100, 1000]);
    assert_eq!(h.num_buckets(), 4);
    h.observe(5);
    h.observe(10);
    h.observe(11);
    h.observe(1000);
    h.observe(5000);
    assert_eq!(h.count_at(0), 2);
    assert_eq!(h.count_at(1), 1);
    assert_eq!(h.count_at(2), 1);
    assert_eq!(h.count_at(3), 1);
}

#[test]
fn join_addresses_with_commas() {
    assert_eq!(join(&strings(&["a:1", "b:2", "c:3"]), ","), "a:1,b:2,c:3");
    assert_eq!(join(&strings(&["solo"]), ","), "solo");
    assert_eq!(join(&Vec::new(), ","), "");
}

#[test]
fn consumer_settings_disable_auto_commit() {
    let settings = initialise_consumer(&sample_config());
    assert_eq!(settings.len(), 7);
    assert_eq!(settings[0].key, "group.id");
    assert_eq!(settings[0].value, "enrichment-consumer-1");
    assert_eq!(settings[1].key, "bootstrap.servers");
    assert_eq!(settings[1].value, "broker-1:9092,broker-2:9092");
    let auto_commit = settings.iter().find(|x| x.key == "enable.auto.commit").unwrap();
    assert_eq!(auto_commit.value, "false");
    let reset = settings.iter().find(|x| x.key == "auto.offset.reset").unwrap();
    assert_eq!(reset.value, "smallest");
}

#[test]
fn producer_settings_bound_the_wait() {
    let settings = initialise_producer(&sample_config());
    assert_eq!(settings.len(), 5);
    assert_eq!(settings[0].value, "broker-1:9092,broker-2:9092");
    let timeout = settings.iter().find(|x| x.key == "message.timeout.ms").unwrap();
    assert_eq!(timeout.value, "5000");
    let acks = settings.iter().find(|x| x.key == "acks").unwrap();
    assert_eq!(acks.value, "1");
}
