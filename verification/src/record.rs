//! The record model: the raw wire shape pulled from the input topic, and the
//! enriched shape republished to the output topic.  Enrichment never mutates
//! the source fields; it only adds the three optional enrichment fields.

use vstd::prelude::*;

verus! {

/// The character sequences of a sequence of strings: the mathematical model
/// of a `Vec<String>` field.
pub open spec fn views_of_strings(s: Seq<String>) -> Seq<Seq<char>> {
    Seq::new(s.len(), |i: int| s[i]@)
}

pub proof fn lemma_views_of_strings_push(s: Seq<String>, x: String)
    ensures
        views_of_strings(s.push(x)) == views_of_strings(s).push(x@),
{
    assert(views_of_strings(s.push(x)) =~= views_of_strings(s).push(x@));
}

/// Mathematical model of a raw record: every field as character sequences.
pub struct RawModel {
    pub created_at: Seq<char>,
    pub text: Seq<char>,
    pub languages: Seq<Seq<char>>,
    pub hashtags: Seq<Seq<char>>,
    pub urls: Seq<Seq<char>>,
    pub hostnames: Seq<Seq<char>>,
}

/// Mathematical model of an enriched record: the raw fields unchanged, plus
/// the three enrichment fields.  `None` models an absent (null) field; a
/// capability that was skipped or failed yields `Some` of an empty sequence,
/// never `None`.
pub struct RecordModel {
    pub raw: RawModel,
    pub sentiment: Option<Seq<Seq<char>>>,
    pub keywords: Option<Seq<Seq<char>>>,
    pub named_entities: Option<Seq<Seq<char>>>,
}

/// A record as read from the input topic, before enrichment.
#[derive(Clone, PartialEq, Eq, Debug)]
pub struct RawRecord {
    pub created_at: String,
    pub text: String,
    pub languages: Vec<String>,
    pub hashtags: Vec<String>,
    pub urls: Vec<String>,
    pub hostnames: Vec<String>,
}

/// A record as written to the output topic: the raw fields byte-identical to
/// the input, plus sentiment labels, kept keywords and entity surface strings.
#[derive(Clone, PartialEq, Eq, Debug)]
pub struct EnrichedRecord {
    pub created_at: String,
    pub text: String,
    pub languages: Vec<String>,
    pub hashtags: Vec<String>,
    pub urls: Vec<String>,
    pub hostnames: Vec<String>,
    pub sentiment: Option<Vec<String>>,
    pub keywords: Option<Vec<String>>,
    pub named_entities: Option<Vec<String>>,
}

/// The model of an optional list-of-strings field.
pub open spec fn view_of_opt_strings(o: Option<Vec<String>>) -> Option<Seq<Seq<char>>> {
    match o {
        Some(v) => Some(views_of_strings(v@)),
        None => None,
    }
}

impl View for RawRecord {
    type V = RawModel;

    open spec fn view(&self) -> RawModel {
        RawModel {
            created_at: self.created_at@,
            text: self.text@,
            languages: views_of_strings(self.languages@),
            hashtags: views_of_strings(self.hashtags@),
            urls: views_of_strings(self.urls@),
            hostnames: views_of_strings(self.hostnames@),
        }
    }
}

impl View for EnrichedRecord {
    type V = RecordModel;

    open spec fn view(&self) -> RecordModel {
        RecordModel {
            raw: RawModel {
                created_at: self.created_at@,
                text: self.text@,
                languages: views_of_strings(self.languages@),
                hashtags: views_of_strings(self.hashtags@),
                urls: views_of_strings(self.urls@),
                hostnames: views_of_strings(self.hostnames@),
            },
            sentiment: view_of_opt_strings(self.sentiment),
            keywords: view_of_opt_strings(self.keywords),
            named_entities: view_of_opt_strings(self.named_entities),
        }
    }
}

impl EnrichedRecord {
    /// The raw part of an enriched record: the source fields with the
    /// enrichment fields dropped.
    pub fn to_raw(&self) -> (r: RawRecord)
        ensures
            r@ == self@.raw,
    {
        RawRecord {
            created_at: clone_string(&self.created_at),
            text: clone_string(&self.text),
            languages: clone_strings(&self.languages),
            hashtags: clone_strings(&self.hashtags),
            urls: clone_strings(&self.urls),
            hostnames: clone_strings(&self.hostnames),
        }
    }
}

/// A copy of a string, equal to the original in every character.
pub fn clone_string(s: &String) -> (r: String)
    ensures
        r@ == s@,
{
    s.clone()
}

/// A copy of a vector of strings whose model is unchanged.
pub fn clone_strings(v: &Vec<String>) -> (r: Vec<String>)
    ensures
        views_of_strings(r@) == views_of_strings(v@),
{
    let mut out: Vec<String> = Vec::new();
    let mut i: usize = 0;
    proof {
        assert(views_of_strings(out@) =~= views_of_strings(v@).take(0));
    }
    while i < v.len()
        invariant
            i <= v.len(),
            views_of_strings(out@) == views_of_strings(v@).take(i as int),
        decreases v.len() - i,
    {
        let s = clone_string(&v[i]);
        proof {
            lemma_views_of_strings_push(out@, s);
            assert(views_of_strings(out@).push(s@) =~= views_of_strings(v@).take((i + 1) as int));
        }
        out.push(s);
        i = i + 1;
    }
    proof {
        assert(views_of_strings(v@).take(v@.len() as int) =~= views_of_strings(v@));
    }
    out
}

} // verus!
