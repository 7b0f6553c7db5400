use enrichment_pipeline::enrich::{
    calculate_sentiment, compose_enrichment, enrich, filter_keywords, Capability, CapabilityError,
    FixedCapability, KeywordCandidate, RecordError, StageError,
};
use enrichment_pipeline::record::{EnrichedRecord, RawRecord};

fn s(v: &str) -> String {
    v.to_string()
}

fn strings(vs: &[&str]) -> Vec<String> {
    vs.iter().map(|v| v.to_string()).collect()
}

fn sample_raw(languages: &[&str]) -> RawRecord {
    RawRecord {
        created_at: s("2024-01-01T00:00:00Z"),
        text: s("great news today"),
        languages: strings(languages),
        hashtags: strings(&["#news"]),
        urls: strings(&["https://example.com/a"]),
        hostnames: strings(&["example.com"]),
    }
}

fn full_caps() -> FixedCapability {
    FixedCapability {
        sentiment: Some(strings(&["Positive"])),
        keywords: Some(vec![
            KeywordCandidate { text: s("news"), score: 4500 },
            KeywordCandidate { text: s("weather"), score: 1200 },
        ]),
        entities: Some(strings(&["today"])),
    }
}

#[test]
fn keyword_threshold_boundary() {
    let cands = vec![
        KeywordCandidate { text: s("half"), score: 5000 },
        KeywordCandidate { text: s("just_below"), score: 3900 },
        KeywordCandidate { text: s("at_boundary"), score: 4000 },
        KeywordCandidate { text: s("low"), score: 1000 },
    ];
    let kept = filter_keywords(&cands);
    assert_eq!(kept, strings(&["half", "at_boundary"]));
}

#[test]
fn keyword_filter_keeps_order_and_empty() {
    let kept = filter_keywords(&Vec::new());
    assert!(kept.is_empty());
    let cands = vec![
        KeywordCandidate { text: s("b"), score: 9999 },
        KeywordCandidate { text: s("a"), score: 3999 },
    ];
    assert_eq!(filter_keywords(&cands), strings(&["b", "a"]));
}

#[test]
fn passthrough_for_other_language() {
    let raw = sample_raw(&["French", "German"]);
    let out = enrich(&raw, &s("English"), &full_caps()).unwrap();
    assert_eq!(out.created_at, raw.created_at);
    assert_eq!(out.text, raw.text);
    assert_eq!(out.languages, raw.languages);
    assert_eq!(out.hashtags, raw.hashtags);
    assert_eq!(out.urls, raw.urls);
    assert_eq!(out.hostnames, raw.hostnames);
    assert_eq!(out.sentiment, Some(Vec::new()));
    assert_eq!(out.keywords, Some(Vec::new()));
    assert_eq!(out.named_entities, Some(Vec::new()));
}

#[test]
fn enrichment_for_matching_language() {
    let raw = sample_raw(&["Spanish", "English"]);
    let out = enrich(&raw, &s("English"), &full_caps()).unwrap();
    assert_eq!(out.text, raw.text);
    assert_eq!(out.languages, raw.languages);
    assert_eq!(out.sentiment, Some(strings(&["Positive"])));
    assert_eq!(out.keywords, Some(strings(&["news"])));
    assert_eq!(out.named_entities, Some(strings(&["today"])));
}

#[test]
fn failed_sentiment_leaves_other_fields_populated() {
    let mut caps = full_caps();
    caps.sentiment = None;
    let raw = sample_raw(&["English"]);
    let out = enrich(&raw, &s("English"), &caps).unwrap();
    assert_eq!(out.sentiment, Some(Vec::new()));
    assert_eq!(out.keywords, Some(strings(&["news"])));
    assert_eq!(out.named_entities, Some(strings(&["today"])));
}

#[test]
fn failed_keywords_leave_sentiment_populated() {
    let mut caps = full_caps();
    caps.keywords = None;
    let raw = sample_raw(&["English"]);
    let out = enrich(&raw, &s("English"), &caps).unwrap();
    assert_eq!(out.sentiment, Some(strings(&["Positive"])));
    assert_eq!(out.keywords, Some(Vec::new()));
}

#[test]
fn unavailable_capability_escalates() {
    let raw = sample_raw(&["English"]);
    let out = compose_enrichment(
        raw,
        Err(CapabilityError::Unavailable),
        Ok(Vec::new()),
        Ok(Vec::new()),
    );
    assert_eq!(out.unwrap_err(), StageError::CapabilityUnavailable);
}

#[test]
fn inference_failure_is_contained() {
    let raw = sample_raw(&["English"]);
    let out = compose_enrichment(
        raw,
        Err(CapabilityError::Inference),
        Err(CapabilityError::Inference),
        Err(CapabilityError::Inference),
    )
    .unwrap();
    assert_eq!(out.sentiment, Some(Vec::new()));
    assert_eq!(out.keywords, Some(Vec::new()));
    assert_eq!(out.named_entities, Some(Vec::new()));
}

#[test]
fn sentiment_thresholds() {
    assert_eq!(calculate_sentiment(500), strings(&["Positive"]));
    assert_eq!(calculate_sentiment(4999), strings(&["Positive"]));
    assert_eq!(calculate_sentiment(499), strings(&["Neutral"]));
    assert_eq!(calculate_sentiment(0), strings(&["Neutral"]));
    assert_eq!(calculate_sentiment(-499), strings(&["Neutral"]));
    assert_eq!(calculate_sentiment(-500), strings(&["Negative"]));
}

#[test]
fn missing_payload_is_distinct() {
    let caps = full_caps();
    let r = EnrichedRecord::enrich_record(None, &s("English"), &caps);
    assert_eq!(r.unwrap_err(), RecordError::MissingPayload);
}

struct PanickyCapability;

impl Capability for PanickyCapability {
    fn analyze_sentiment(&self, _text: &String) -> Result<Vec<String>, CapabilityError> {
        panic!("capability must not run on a pass-through record");
    }

    fn extract_keywords(&self, _text: &String) -> Result<Vec<KeywordCandidate>, CapabilityError> {
        panic!("capability must not run on a pass-through record");
    }

    fn extract_entities(&self, _text: &String) -> Result<Vec<String>, CapabilityError> {
        panic!("capability must not run on a pass-through record");
    }
}

#[test]
fn passthrough_invokes_no_capability() {
    let raw = sample_raw(&["French"]);
    let out = enrich(&raw, &s("English"), &PanickyCapability).unwrap();
    assert_eq!(out.sentiment, Some(Vec::new()));
}
