use enrichment_pipeline::codec::{decode, encode, DecodeError};
use enrichment_pipeline::enrich::{FixedCapability, KeywordCandidate};
use enrichment_pipeline::record::EnrichedRecord;

fn s(v: &str) -> String {
    v.to_string()
}

fn strings(vs: &[&str]) -> Vec<String> {
    vs.iter().map(|v| v.to_string()).collect()
}

fn chars(v: &str) -> Vec<char> {
    v.chars().collect()
}

fn text_of(v: &[char]) -> String {
    v.iter().collect()
}

fn sample_record() -> EnrichedRecord {
    EnrichedRecord {
        created_at: s("2024-01-01T00:00:00Z"),
        text: s("great news today"),
        languages: strings(&["English", "Spanish"]),
        hashtags: strings(&["#news"]),
        urls: strings(&["https://example.com/a?b=c"]),
        hostnames: strings(&["example.com"]),
        sentiment: Some(strings(&["Positive"])),
        keywords: Some(strings(&["news"])),
        named_entities: Some(strings(&["today"])),
    }
}

#[test]
fn encode_canonical_shape() {
    let out = text_of(&encode(&sample_record()));
    assert_eq!(
        out,
        "{\"created_at\":\"2024-01-01T00:00:00Z\",\"text\":\"great news today\",\
         \"languages\":[\"English\",\"Spanish\"],\"hashtags\":[\"#news\"],\
         \"urls\":[\"https://example.com/a?b=c\"],\"hostnames\":[\"example.com\"],\
         \"sentiment\":[\"Positive\"],\"keywords\":[\"news\"],\"named_entities\":[\"today\"]}"
    );
}

#[test]
fn decode_encode_round_trip() {
    let rec = sample_record();
    let back = decode(&encode(&rec)).unwrap();
    assert_eq!(back, rec);
}

#[test]
fn round_trip_with_escapes_and_empty_lists() {
    let rec = EnrichedRecord {
        created_at: s(""),
        text: s("a \"quoted\" back\\slash\nwith\ttabs\rkept"),
        languages: Vec::new(),
        hashtags: strings(&["", "x"]),
        urls: Vec::new(),
        hostnames: Vec::new(),
        sentiment: Some(Vec::new()),
        keywords: Some(strings(&["a,b", "c]d"])),
        named_entities: Some(strings(&["[e"])),
    };
    let back = decode(&encode(&rec)).unwrap();
    assert_eq!(back, rec);
}

#[test]
fn round_trip_with_null_fields() {
    let rec = EnrichedRecord {
        created_at: s("t"),
        text: s("body"),
        languages: strings(&["English"]),
        hashtags: Vec::new(),
        urls: Vec::new(),
        hostnames: Vec::new(),
        sentiment: None,
        keywords: None,
        named_entities: None,
    };
    let back = decode(&encode(&rec)).unwrap();
    assert_eq!(back, rec);
}

#[test]
fn decode_accepts_null_and_lists() {
    let t = chars(
        "{\"created_at\":\"t\",\"text\":\"b\",\"languages\":[\"English\"],\"hashtags\":[],\
         \"urls\":[],\"hostnames\":[],\"sentiment\":null,\"keywords\":[\"k\"],\
         \"named_entities\":null}",
    );
    let rec = decode(&t).unwrap();
    assert_eq!(rec.sentiment, None);
    assert_eq!(rec.keywords, Some(strings(&["k"])));
    assert_eq!(rec.named_entities, None);
    assert_eq!(rec.languages, strings(&["English"]));
}

#[test]
fn decode_accepts_the_input_topic_shape() {
    let t = chars(
        "{\"created_at\":\"t\",\"text\":\"b\",\"languages\":[\"English\"],\"hashtags\":[],\
         \"urls\":[],\"hostnames\":[]}",
    );
    let rec = decode(&t).unwrap();
    assert_eq!(rec.text, "b");
    assert_eq!(rec.languages, strings(&["English"]));
    assert_eq!(rec.sentiment, None);
    assert_eq!(rec.keywords, None);
    assert_eq!(rec.named_entities, None);
}

#[test]
fn decode_unescapes_json_text() {
    let t = chars(
        "{\"created_at\":\"t\",\"text\":\"line\\none\\ttab\",\"languages\":[],\"hashtags\":[],\
         \"urls\":[],\"hostnames\":[]}",
    );
    let rec = decode(&t).unwrap();
    assert_eq!(rec.text, "line\none\ttab");
}

#[test]
fn control_characters_round_trip_as_hex_escapes() {
    let rec = EnrichedRecord {
        created_at: s("t"),
        text: s("bell\u{0007} and unit\u{001f} separators"),
        languages: Vec::new(),
        hashtags: Vec::new(),
        urls: Vec::new(),
        hostnames: Vec::new(),
        sentiment: None,
        keywords: None,
        named_entities: None,
    };
    let encoded = encode(&rec);
    let encoded_text = text_of(&encoded);
    assert!(encoded_text.contains("bell\\u0007 and unit\\u001f separators"));
    let back = decode(&encoded).unwrap();
    assert_eq!(back, rec);
}

#[test]
fn decode_reads_ascii_hex_escapes() {
    let t = chars(
        "{\"created_at\":\"t\",\"text\":\"\\u0041x\",\"languages\":[],\"hashtags\":[],\
         \"urls\":[],\"hostnames\":[]}",
    );
    let rec = decode(&t).unwrap();
    assert_eq!(rec.text, "Ax");
}

#[test]
fn decode_rejects_bad_hex_escape() {
    let t = chars(
        "{\"created_at\":\"t\",\"text\":\"\\u00zz\",\"languages\":[],\"hashtags\":[],\
         \"urls\":[],\"hostnames\":[]}",
    );
    assert_eq!(decode(&t).unwrap_err(), DecodeError::Malformed);
}

#[test]
fn decode_rejects_unknown_escape() {
    let t = chars(
        "{\"created_at\":\"t\",\"text\":\"bad\\q\",\"languages\":[],\"hashtags\":[],\
         \"urls\":[],\"hostnames\":[]}",
    );
    assert_eq!(decode(&t).unwrap_err(), DecodeError::Malformed);
}

#[test]
fn decode_rejects_malformed() {
    assert_eq!(decode(&chars("")).unwrap_err(), DecodeError::Malformed);
    assert_eq!(decode(&chars("not a record")).unwrap_err(), DecodeError::Malformed);
    assert_eq!(decode(&chars("{\"created_at\":")).unwrap_err(), DecodeError::Malformed);
    let unterminated = "{\"created_at\":\"t";
    assert_eq!(decode(&chars(unterminated)).unwrap_err(), DecodeError::Malformed);
    let trailing = "{\"created_at\":\"t\",\"text\":\"b\",\"languages\":[],\"hashtags\":[],\
                    \"urls\":[],\"hostnames\":[],\"sentiment\":null,\"keywords\":null,\
                    \"named_entities\":null}x";
    assert_eq!(decode(&chars(trailing)).unwrap_err(), DecodeError::Malformed);
}

#[test]
fn end_to_end_scenario() {
    let input = chars(
        "{\"created_at\":\"2024-05-01T10:00:00Z\",\"text\":\"great news today\",\
         \"languages\":[\"English\"],\"hashtags\":[],\"urls\":[],\"hostnames\":[]}",
    );
    let caps = FixedCapability {
        sentiment: Some(strings(&["Positive"])),
        keywords: Some(vec![KeywordCandidate { text: s("news"), score: 4500 }]),
        entities: Some(Vec::new()),
    };
    let enriched =
        EnrichedRecord::enrich_record(Some(&input), &s("English"), &caps).unwrap();
    let published = text_of(&encode(&enriched));
    assert_eq!(
        published,
        "{\"created_at\":\"2024-05-01T10:00:00Z\",\"text\":\"great news today\",\
         \"languages\":[\"English\"],\"hashtags\":[],\"urls\":[],\"hostnames\":[],\
         \"sentiment\":[\"Positive\"],\"keywords\":[\"news\"],\"named_entities\":[]}"
    );
}
