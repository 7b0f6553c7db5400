//! The enrichment stage: applies the enabled text-analysis capabilities to a
//! record's text and composes the enriched record.  Every capability failure
//! is contained: a failing capability yields an empty field, never a dropped
//! record; only a permanently unavailable capability escalates as a
//! `StageError`.

use vstd::prelude::*;
use crate::record::{RawRecord, RawModel, RecordModel, EnrichedRecord, views_of_strings,
    lemma_views_of_strings_push, clone_string, clone_strings};
use crate::codec::{decode, parse_record, DecodeError};
use crate::KEYWORD_SCORE_MIN;

verus! {

/// A record that could not enter the pipeline: the message carried no
/// payload at all, the payload was malformed, or the stage failed
/// systemically.
#[derive(Clone, Copy, PartialEq, Eq, Debug, Structural)]
pub enum RecordError {
    MissingPayload,
    Decode(DecodeError),
    Stage(StageError),
}

/// Failure of a single capability call.  `Unavailable` means the capability
/// cannot be reached at all (systemic); `Inference` means this one analysis
/// failed.
#[derive(Clone, Copy, PartialEq, Eq, Debug, Structural)]
pub enum CapabilityError {
    Unavailable,
    Inference,
}

/// Systemic enrichment failure, escalated to the ingestion loop.
#[derive(Clone, Copy, PartialEq, Eq, Debug, Structural)]
pub enum StageError {
    CapabilityUnavailable,
}

/// A keyword proposed by the keyword-extraction capability, with its
/// confidence score in ten-thousandths (a score of `4500` stands for 0.45).
#[derive(Clone)]
pub struct KeywordCandidate {
    pub text: String,
    pub score: i64,
}

/// A pluggable text-analysis capability set.  Implementations are external
/// collaborators (model inference); nothing is promised of their results,
/// and each call may fail independently.
pub trait Capability {
    fn analyze_sentiment(&self, text: &String) -> Result<Vec<String>, CapabilityError>;

    fn extract_keywords(&self, text: &String) -> Result<Vec<KeywordCandidate>, CapabilityError>;

    fn extract_entities(&self, text: &String) -> Result<Vec<String>, CapabilityError>;
}

/// The keywords kept from a candidate list: those whose score reaches the
/// pipeline's minimum, in candidate order, reduced to their text.
pub open spec fn kept_keywords(cands: Seq<KeywordCandidate>) -> Seq<Seq<char>>
    decreases cands.len(),
{
    if cands.len() == 0 {
        Seq::empty()
    } else {
        let pre = kept_keywords(cands.drop_last());
        if cands.last().score >= KEYWORD_SCORE_MIN {
            pre.push(cands.last().text@)
        } else {
            pre
        }
    }
}

/// Applies the pipeline's minimum-score policy to keyword candidates,
/// keeping the text of each candidate that reaches the threshold, in order.
pub fn filter_keywords(cands: &Vec<KeywordCandidate>) -> (r: Vec<String>)
    ensures
        views_of_strings(r@) == kept_keywords(cands@),
{
    let mut out: Vec<String> = Vec::new();
    let mut i: usize = 0;
    proof {
        assert(views_of_strings(out@) =~= kept_keywords(cands@.take(0)));
    }
    while i < cands.len()
        invariant
            i <= cands.len(),
            views_of_strings(out@) == kept_keywords(cands@.take(i as int)),
        decreases cands.len() - i,
    {
        proof {
            assert(cands@.take((i + 1) as int).drop_last() =~= cands@.take(i as int));
            assert(cands@.take((i + 1) as int).last() == cands@[i as int]);
        }
        if cands[i].score >= KEYWORD_SCORE_MIN {
            let s = clone_string(&cands[i].text);
            proof {
                lemma_views_of_strings_push(out@, s);
            }
            out.push(s);
        }
        i = i + 1;
    }
    proof {
        assert(cands@.take(cands@.len() as int) =~= cands@);
    }
    out
}

/// The model of a labels outcome: the labels on success, nothing on failure.
pub open spec fn labels_model(o: Result<Vec<String>, CapabilityError>) -> Result<
    Seq<Seq<char>>,
    CapabilityError,
> {
    match o {
        Ok(v) => Ok(views_of_strings(v@)),
        Err(e) => Err(e),
    }
}

/// Whether any capability outcome reports the capability unavailable: the
/// one enrichment failure that is systemic rather than per-record.
pub open spec fn systemic_failure(
    s_out: Result<Seq<Seq<char>>, CapabilityError>,
    k_out: Result<Seq<KeywordCandidate>, CapabilityError>,
    e_out: Result<Seq<Seq<char>>, CapabilityError>,
) -> bool {
    ||| s_out == Result::<Seq<Seq<char>>, CapabilityError>::Err(CapabilityError::Unavailable)
    ||| k_out == Result::<Seq<KeywordCandidate>, CapabilityError>::Err(CapabilityError::Unavailable)
    ||| e_out == Result::<Seq<Seq<char>>, CapabilityError>::Err(CapabilityError::Unavailable)
}

/// The enriched record composed from a raw record and the three capability
/// outcomes: source fields unchanged, each enrichment field holding its own
/// capability's result and an empty sequence where that capability failed.
pub open spec fn enrichment_of(
    raw: RawModel,
    s_out: Result<Seq<Seq<char>>, CapabilityError>,
    k_out: Result<Seq<KeywordCandidate>, CapabilityError>,
    e_out: Result<Seq<Seq<char>>, CapabilityError>,
) -> RecordModel {
    RecordModel {
        raw: raw,
        sentiment: Some(
            match s_out {
                Ok(l) => l,
                Err(_) => Seq::empty(),
            },
        ),
        keywords: Some(
            match k_out {
                Ok(c) => kept_keywords(c),
                Err(_) => Seq::empty(),
            },
        ),
        named_entities: Some(
            match e_out {
                Ok(l) => l,
                Err(_) => Seq::empty(),
            },
        ),
    }
}

/// The pass-through shape: a record whose languages exclude the target
/// language flows through with every enrichment field set to its empty
/// state, its source fields untouched.
pub open spec fn passthrough_of(raw: RawModel) -> RecordModel {
    RecordModel {
        raw: raw,
        sentiment: Some(Seq::empty()),
        keywords: Some(Seq::empty()),
        named_entities: Some(Seq::empty()),
    }
}

/// Every composed enrichment keeps the source fields and sets all three
/// enrichment fields present (possibly empty), whatever the outcomes were.
pub proof fn lemma_enrichment_fields_present(
    raw: RawModel,
    s_out: Result<Seq<Seq<char>>, CapabilityError>,
    k_out: Result<Seq<KeywordCandidate>, CapabilityError>,
    e_out: Result<Seq<Seq<char>>, CapabilityError>,
)
    ensures
        enrichment_of(raw, s_out, k_out, e_out).raw == raw,
        enrichment_of(raw, s_out, k_out, e_out).sentiment is Some,
        enrichment_of(raw, s_out, k_out, e_out).keywords is Some,
        enrichment_of(raw, s_out, k_out, e_out).named_entities is Some,
        s_out matches Ok(l) ==> enrichment_of(raw, s_out, k_out, e_out).sentiment == Some(l),
        k_out matches Ok(c) ==> enrichment_of(raw, s_out, k_out, e_out).keywords == Some(
            kept_keywords(c),
        ),
        e_out matches Ok(l) ==> enrichment_of(raw, s_out, k_out, e_out).named_entities == Some(l),
{
}

/// The enrichment fields are independent: one capability's failure empties
/// its own field only, and the fields the other capabilities produced stand
/// exactly as if no failure had happened.
pub proof fn lemma_enrichment_independent(
    raw: RawModel,
    err: CapabilityError,
    k: Seq<KeywordCandidate>,
    e: Seq<Seq<char>>,
)
    ensures
        enrichment_of(raw, Err(err), Ok(k), Ok(e)) == (RecordModel {
            raw: raw,
            sentiment: Some(Seq::empty()),
            keywords: Some(kept_keywords(k)),
            named_entities: Some(e),
        }),
{
}

/// A copy of a raw record whose model is unchanged.
pub fn clone_raw(r: &RawRecord) -> (c: RawRecord)
    ensures
        c@ == r@,
{
    RawRecord {
        created_at: clone_string(&r.created_at),
        text: clone_string(&r.text),
        languages: clone_strings(&r.languages),
        hashtags: clone_strings(&r.hashtags),
        urls: clone_strings(&r.urls),
        hostnames: clone_strings(&r.hostnames),
    }
}

/// Whether a list of strings holds one equal to `s`.
pub fn contains_string(v: &Vec<String>, s: &String) -> (r: bool)
    ensures
        r == views_of_strings(v@).contains(s@),
{
    let mut i: usize = 0;
    while i < v.len()
        invariant
            i <= v.len(),
            forall|j: int| 0 <= j < i ==> views_of_strings(v@)[j] != s@,
        decreases v.len() - i,
    {
        if v[i].eq(s) {
            proof {
                assert(views_of_strings(v@)[i as int] == s@);
            }
            return true;
        }
        i = i + 1;
    }
    false
}

/// Composes the enriched record from a raw record and the three capability
/// outcomes.  A capability reported `Unavailable` is systemic and escalates;
/// every other combination yields exactly `enrichment_of`.
pub fn compose_enrichment(
    raw: RawRecord,
    s_out: Result<Vec<String>, CapabilityError>,
    k_out: Result<Vec<KeywordCandidate>, CapabilityError>,
    e_out: Result<Vec<String>, CapabilityError>,
) -> (r: Result<EnrichedRecord, StageError>)
    ensures
        ({
            let sm = labels_model(s_out);
            let km = match k_out {
                Ok(ref c) => Ok(c@),
                Err(e) => Err(e),
            };
            let em = labels_model(e_out);
            &&& (r matches Err(se) <==> systemic_failure(sm, km, em))
            &&& (r matches Err(se) ==> se == StageError::CapabilityUnavailable)
            &&& (r matches Ok(rec) ==> rec@ == enrichment_of(raw@, sm, km, em))
        }),
{
    let systemic = matches!(s_out, Err(CapabilityError::Unavailable)) || matches!(
        k_out,
        Err(CapabilityError::Unavailable),
    ) || matches!(e_out, Err(CapabilityError::Unavailable));
    if systemic {
        return Err(StageError::CapabilityUnavailable);
    }
    let sentiment: Vec<String> = match s_out {
        Ok(l) => l,
        Err(_) => Vec::new(),
    };
    let keywords: Vec<String> = match k_out {
        Ok(ref c) => filter_keywords(c),
        Err(_) => Vec::new(),
    };
    let named_entities: Vec<String> = match e_out {
        Ok(l) => l,
        Err(_) => Vec::new(),
    };
    proof {
        assert(views_of_strings(Seq::<String>::empty()) =~= Seq::<Seq<char>>::empty());
    }
    Ok(
        EnrichedRecord {
            created_at: raw.created_at,
            text: raw.text,
            languages: raw.languages,
            hashtags: raw.hashtags,
            urls: raw.urls,
            hostnames: raw.hostnames,
            sentiment: Some(sentiment),
            keywords: Some(keywords),
            named_entities: Some(named_entities),
        },
    )
}

/// The enrichment stage.  A record whose languages exclude the target
/// language passes through with empty enrichment fields and no capability
/// invoked; otherwise each capability runs on the text, each failure
/// contained to its own field.  `Err` is raised only for a systemic
/// capability outage, never for a single bad record.
pub fn enrich<C: Capability>(raw: &RawRecord, target_language: &String, caps: &C) -> (r: Result<
    EnrichedRecord,
    StageError,
>)
    ensures
        !raw@.languages.contains(target_language@) ==> (r matches Ok(rec) && rec@
            == passthrough_of(raw@)),
        r matches Ok(rec) ==> rec@.raw == raw@,
        r matches Ok(rec) ==> rec@.sentiment is Some && rec@.keywords is Some
            && rec@.named_entities is Some,
        r matches Err(se) ==> se == StageError::CapabilityUnavailable && raw@.languages.contains(
            target_language@,
        ),
{
    if !contains_string(&raw.languages, target_language) {
        proof {
            assert(views_of_strings(Seq::<String>::empty()) =~= Seq::<Seq<char>>::empty());
        }
        Ok(
            EnrichedRecord {
                created_at: clone_string(&raw.created_at),
                text: clone_string(&raw.text),
                languages: clone_strings(&raw.languages),
                hashtags: clone_strings(&raw.hashtags),
                urls: clone_strings(&raw.urls),
                hostnames: clone_strings(&raw.hostnames),
                sentiment: Some(Vec::new()),
                keywords: Some(Vec::new()),
                named_entities: Some(Vec::new()),
            },
        )
    } else {
        let s_out = caps.analyze_sentiment(&raw.text);
        let k_out = caps.extract_keywords(&raw.text);
        let e_out = caps.extract_entities(&raw.text);
        compose_enrichment(clone_raw(raw), s_out, k_out, e_out)
    }
}

/// The sentiment label for a compound polarity score in ten-thousandths:
/// at least 0.05 reads positive, at most -0.05 negative, else neutral.
pub open spec fn sentiment_label(compound: int) -> Seq<char> {
    if compound >= 500 {
        "Positive"@
    } else if compound <= -500 {
        "Negative"@
    } else {
        "Neutral"@
    }
}

/// Classifies a compound polarity score, in ten-thousandths, into its one
/// sentiment label.
pub fn calculate_sentiment(compound: i64) -> (r: Vec<String>)
    ensures
        r@.len() == 1,
        r@[0]@ == sentiment_label(compound as int),
{
    let label = if compound >= 500 {
        String::from_str("Positive")
    } else if compound <= -500 {
        String::from_str("Negative")
    } else {
        String::from_str("Neutral")
    };
    let mut r: Vec<String> = Vec::new();
    r.push(label);
    r
}

impl EnrichedRecord {
    /// The whole per-record transform: decode the payload, then enrich.  A
    /// message without a payload and a malformed payload are distinct
    /// per-record failures; only a systemic capability outage escalates.
    pub fn enrich_record<C: Capability>(
        payload: Option<&Vec<char>>,
        target_language: &String,
        caps: &C,
    ) -> (r: Result<EnrichedRecord, RecordError>)
        ensures
            payload is None ==> r == Result::<EnrichedRecord, RecordError>::Err(
                RecordError::MissingPayload,
            ),
            payload matches Some(t) ==> match parse_record(t@) {
                None => r == Result::<EnrichedRecord, RecordError>::Err(
                    RecordError::Decode(DecodeError::Malformed),
                ),
                Some(m) => {
                    &&& (!m.raw.languages.contains(target_language@) ==> (r matches Ok(rec)
                        && rec@ == passthrough_of(m.raw)))
                    &&& (r matches Ok(rec) ==> rec@.raw == m.raw && rec@.sentiment is Some
                        && rec@.keywords is Some && rec@.named_entities is Some)
                    &&& (r matches Err(e) ==> e == RecordError::Stage(
                        StageError::CapabilityUnavailable,
                    ) && m.raw.languages.contains(target_language@))
                },
            },
    {
        match payload {
            None => Err(RecordError::MissingPayload),
            Some(t) => match decode(t) {
                Err(e) => Err(RecordError::Decode(e)),
                Ok(rec) => {
                    let raw = rec.to_raw();
                    match enrich(&raw, target_language, caps) {
                        Ok(enriched) => Ok(enriched),
                        Err(se) => Err(RecordError::Stage(se)),
                    }
                },
            },
        }
    }
}

/// A capability set with fixed outcomes: the deployment profile used when
/// analysis runs elsewhere or is disabled.  A `None` field makes that
/// capability report an inference failure.
pub struct FixedCapability {
    pub sentiment: Option<Vec<String>>,
    pub keywords: Option<Vec<KeywordCandidate>>,
    pub entities: Option<Vec<String>>,
}

impl Capability for FixedCapability {
    fn analyze_sentiment(&self, _text: &String) -> Result<Vec<String>, CapabilityError> {
        match self.sentiment {
            Some(ref v) => Ok(clone_strings(v)),
            None => Err(CapabilityError::Inference),
        }
    }

    fn extract_keywords(&self, _text: &String) -> Result<Vec<KeywordCandidate>, CapabilityError> {
        match self.keywords {
            Some(ref v) => Ok(clone_candidates(v)),
            None => Err(CapabilityError::Inference),
        }
    }

    fn extract_entities(&self, _text: &String) -> Result<Vec<String>, CapabilityError> {
        match self.entities {
            Some(ref v) => Ok(clone_strings(v)),
            None => Err(CapabilityError::Inference),
        }
    }
}

/// A copy of a candidate list with every text and score unchanged.
pub fn clone_candidates(v: &Vec<KeywordCandidate>) -> (r: Vec<KeywordCandidate>)
    ensures
        r@.len() == v@.len(),
        forall|i: int|
            0 <= i < v@.len() ==> r@[i].text@ == v@[i].text@ && r@[i].score == v@[i].score,
{
    let mut out: Vec<KeywordCandidate> = Vec::new();
    let mut i: usize = 0;
    while i < v.len()
        invariant
            i <= v.len(),
            out@.len() == i,
            forall|j: int|
                0 <= j < i ==> out@[j].text@ == v@[j].text@ && out@[j].score == v@[j].score,
        decreases v.len() - i,
    {
        out.push(
            KeywordCandidate { text: clone_string(&v[i].text), score: v[i].score },
        );
        i = i + 1;
    }
    out
}

} // verus!
