//! The record codec: the canonical wire text for a record, and its parser.
//! The shape is a single object whose fields stand in a fixed order; each
//! string is quoted, with `"`, `\`, newline, tab and carriage return
//! escaped; each list is bracketed and comma-separated.  The record may
//! end after the raw fields — the input-topic shape — or carry the three
//! enrichment fields, each a list or `null`.  Decoding accepts exactly
//! this canonical shape and is proved to invert encoding.

use vstd::prelude::*;
use crate::record::{RawModel, RecordModel, EnrichedRecord, views_of_strings};

verus! {

/// A payload that is not the canonical record shape.
#[derive(Clone, Copy, PartialEq, Eq, Debug, Structural)]
pub enum DecodeError {
    Malformed,
}

/// The characters written as a two-character escape: the quote, the
/// backslash, and the common control characters.
pub open spec fn needs_escape(c: char) -> bool {
    c == '"' || c == '\\' || c == '\n' || c == '\t' || c == '\r'
}

/// The code letter standing after the backslash for an escaped character.
pub open spec fn esc_code(c: char) -> char {
    if c == '\n' {
        'n'
    } else if c == '\t' {
        't'
    } else if c == '\r' {
        'r'
    } else {
        c
    }
}

/// The character a code letter stands for; an unknown code is refused.
pub open spec fn unesc_code(d: char) -> Option<char> {
    if d == '"' || d == '\\' {
        Some(d)
    } else if d == 'n' {
        Some('\n')
    } else if d == 't' {
        Some('\t')
    } else if d == 'r' {
        Some('\r')
    } else {
        None
    }
}

/// A control character without a code letter of its own: it is written as
/// a four-digit hexadecimal escape.
pub open spec fn is_other_control(c: char) -> bool {
    (c as u32) < 32 && !needs_escape(c)
}

/// The hexadecimal digit for a value below sixteen.
pub open spec fn hex_digit(n: int) -> char {
    if n < 10 {
        ((48 + n) as u8) as char
    } else {
        ((87 + n) as u8) as char
    }
}

/// The value of a hexadecimal digit; other characters are refused.
pub open spec fn hex_val(d: char) -> Option<int> {
    if 48 <= d as u32 <= 57 {
        Some(d as u32 - 48)
    } else if 97 <= d as u32 <= 102 {
        Some(d as u32 - 87)
    } else {
        None
    }
}

/// The escape of one character.
pub open spec fn esc_char(c: char) -> Seq<char> {
    if needs_escape(c) {
        seq!['\\', esc_code(c)]
    } else if is_other_control(c) {
        seq!['\\', 'u', '0', '0', hex_digit(c as u32 as int / 16), hex_digit(
            c as u32 as int % 16,
        )]
    } else {
        seq![c]
    }
}

/// The value of four hexadecimal digits starting at `i`.
pub open spec fn hex4(t: Seq<char>, i: int) -> Option<int> {
    match hex_val(t[i]) {
        None => None,
        Some(a) => match hex_val(t[i + 1]) {
            None => None,
            Some(b) => match hex_val(t[i + 2]) {
                None => None,
                Some(c) => match hex_val(t[i + 3]) {
                    None => None,
                    Some(d) => Some(a * 4096 + b * 256 + c * 16 + d),
                },
            },
        },
    }
}

/// The escape of a string body.
pub open spec fn esc(s: Seq<char>) -> Seq<char>
    decreases s.len(),
{
    if s.len() == 0 {
        Seq::empty()
    } else {
        esc_char(s[0]) + esc(s.drop_first())
    }
}

/// A quoted, escaped string.
pub open spec fn enc_str(s: Seq<char>) -> Seq<char> {
    seq!['"'] + (esc(s) + seq!['"'])
}

/// The comma-separated items of a non-empty list.
pub open spec fn enc_items(xs: Seq<Seq<char>>) -> Seq<char>
    decreases xs.len(),
{
    if xs.len() <= 1 {
        enc_str(xs[0])
    } else {
        enc_str(xs[0]) + (seq![','] + enc_items(xs.drop_first()))
    }
}

/// A bracketed list of strings.
pub open spec fn enc_list(xs: Seq<Seq<char>>) -> Seq<char> {
    if xs.len() == 0 {
        seq!['[', ']']
    } else {
        seq!['['] + (enc_items(xs) + seq![']'])
    }
}

/// An optional list: `null` when absent.
pub open spec fn enc_opt_list(o: Option<Seq<Seq<char>>>) -> Seq<char> {
    match o {
        None => seq!['n', 'u', 'l', 'l'],
        Some(xs) => enc_list(xs),
    }
}

pub open spec fn lit_created_at() -> Seq<char> {
    "{\"created_at\":"@
}

pub open spec fn lit_text() -> Seq<char> {
    ",\"text\":"@
}

pub open spec fn lit_languages() -> Seq<char> {
    ",\"languages\":"@
}

pub open spec fn lit_hashtags() -> Seq<char> {
    ",\"hashtags\":"@
}

pub open spec fn lit_urls() -> Seq<char> {
    ",\"urls\":"@
}

pub open spec fn lit_hostnames() -> Seq<char> {
    ",\"hostnames\":"@
}

pub open spec fn lit_sentiment() -> Seq<char> {
    ",\"sentiment\":"@
}

pub open spec fn lit_keywords() -> Seq<char> {
    ",\"keywords\":"@
}

pub open spec fn lit_named_entities() -> Seq<char> {
    ",\"named_entities\":"@
}

/// The canonical wire text of a record.
pub open spec fn enc_record(m: RecordModel) -> Seq<char> {
    lit_created_at() + enc_str(m.raw.created_at) + lit_text() + enc_str(m.raw.text)
        + lit_languages() + enc_list(m.raw.languages) + lit_hashtags() + enc_list(m.raw.hashtags)
        + lit_urls() + enc_list(m.raw.urls) + lit_hostnames() + enc_list(m.raw.hostnames)
        + lit_sentiment() + enc_opt_list(m.sentiment) + lit_keywords() + enc_opt_list(m.keywords)
        + lit_named_entities() + enc_opt_list(m.named_entities) + seq!['}']
}

/// The four characters of an absent field.
pub open spec fn null_lit() -> Seq<char> {
    seq!['n', 'u', 'l', 'l']
}

/// Whether the literal stands at position `i`; on success the position
/// just past it.
pub open spec fn expect_at(t: Seq<char>, i: int, lit: Seq<char>) -> Option<int> {
    if 0 <= i && i + lit.len() <= t.len() && t.subrange(i, i + lit.len()) == lit {
        Some(i + lit.len())
    } else {
        None
    }
}

/// Reads an escaped string body up to its closing quote, starting just
/// after the opening quote; on success the body and the position past the
/// closing quote.
pub open spec fn scan_str(t: Seq<char>, i: int) -> Option<(Seq<char>, int)>
    decreases t.len() - i,
{
    if i < 0 || i >= t.len() {
        None
    } else if t[i] == '"' {
        Some((Seq::empty(), i + 1))
    } else if t[i] == '\\' {
        if i + 1 < t.len() {
            if t[i + 1] == 'u' {
                if i + 5 < t.len() {
                    match hex4(t, i + 2) {
                        Some(v) => if 0 <= v < 128 {
                            match scan_str(t, i + 6) {
                                Some(r) => Some((seq![(v as u8) as char] + r.0, r.1)),
                                None => None,
                            }
                        } else {
                            None
                        },
                        None => None,
                    }
                } else {
                    None
                }
            } else {
                match unesc_code(t[i + 1]) {
                    Some(u) => match scan_str(t, i + 2) {
                        Some(r) => Some((seq![u] + r.0, r.1)),
                        None => None,
                    },
                    None => None,
                }
            }
        } else {
            None
        }
    } else {
        match scan_str(t, i + 1) {
            Some(r) => Some((seq![t[i]] + r.0, r.1)),
            None => None,
        }
    }
}

proof fn lemma_scan_str_bound(t: Seq<char>, i: int)
    ensures
        scan_str(t, i) matches Some(r) ==> i < r.1 <= t.len(),
    decreases t.len() - i,
{
    if 0 <= i < t.len() {
        lemma_scan_str_bound(t, i + 1);
        if i + 1 < t.len() {
            lemma_scan_str_bound(t, i + 2);
        }
        if i + 5 < t.len() {
            lemma_scan_str_bound(t, i + 6);
        }
    }
}

/// A quoted string at position `i`.
pub open spec fn parse_string(t: Seq<char>, i: int) -> Option<(Seq<char>, int)> {
    if 0 <= i < t.len() && t[i] == '"' {
        scan_str(t, i + 1)
    } else {
        None
    }
}

/// The items of a non-empty list, up to and past the closing bracket.
pub open spec fn parse_items(t: Seq<char>, i: int) -> Option<(Seq<Seq<char>>, int)>
    decreases t.len() - i
        via parse_items_dec
{
    match parse_string(t, i) {
        Some(r) => {
            if r.1 < t.len() && t[r.1] == ']' {
                Some((seq![r.0], r.1 + 1))
            } else if r.1 < t.len() && t[r.1] == ',' {
                match parse_items(t, r.1 + 1) {
                    Some(r2) => Some((seq![r.0] + r2.0, r2.1)),
                    None => None,
                }
            } else {
                None
            }
        },
        None => None,
    }
}

#[via_fn]
proof fn parse_items_dec(t: Seq<char>, i: int) {
    if 0 <= i < t.len() && t[i] == '"' {
        lemma_scan_str_bound(t, i + 1);
    }
}

/// A bracketed list at position `i`.
pub open spec fn parse_list(t: Seq<char>, i: int) -> Option<(Seq<Seq<char>>, int)> {
    if 0 <= i && i + 1 < t.len() && t[i] == '[' {
        if t[i + 1] == ']' {
            Some((Seq::empty(), i + 2))
        } else {
            parse_items(t, i + 1)
        }
    } else {
        None
    }
}

/// An optional list: `null` or a bracketed list.
pub open spec fn parse_opt_list(t: Seq<char>, i: int) -> Option<(Option<Seq<Seq<char>>>, int)> {
    match expect_at(t, i, null_lit()) {
        Some(j) => Some((None, j)),
        None => match parse_list(t, i) {
            Some(r) => Some((Some(r.0), r.1)),
            None => None,
        },
    }
}

/// The canonical record shape, parsed whole: every field in its fixed
/// order, the text consumed exactly.
pub open spec fn parse_record(t: Seq<char>) -> Option<RecordModel> {
    match expect_at(t, 0, lit_created_at()) {
        None => None,
        Some(i1) => match parse_string(t, i1) {
            None => None,
            Some(created_at) => match expect_at(t, created_at.1, lit_text()) {
                None => None,
                Some(i2) => match parse_string(t, i2) {
                    None => None,
                    Some(text) => match expect_at(t, text.1, lit_languages()) {
                        None => None,
                        Some(i3) => match parse_list(t, i3) {
                            None => None,
                            Some(languages) => match expect_at(t, languages.1, lit_hashtags()) {
                                None => None,
                                Some(i4) => match parse_list(t, i4) {
                                    None => None,
                                    Some(hashtags) => match expect_at(t, hashtags.1, lit_urls()) {
                                        None => None,
                                        Some(i5) => match parse_list(t, i5) {
                                            None => None,
                                            Some(urls) => match expect_at(
                                                t,
                                                urls.1,
                                                lit_hostnames(),
                                            ) {
                                                None => None,
                                                Some(i6) => match parse_list(t, i6) {
                                                    None => None,
                                                    Some(hostnames) => parse_record_tail(
                                                        t,
                                                        hostnames.1,
                                                        RawModel {
                                                            created_at: created_at.0,
                                                            text: text.0,
                                                            languages: languages.0,
                                                            hashtags: hashtags.0,
                                                            urls: urls.0,
                                                            hostnames: hostnames.0,
                                                        },
                                                    ),
                                                },
                                            },
                                        },
                                    },
                                },
                            },
                        },
                    },
                },
            },
        },
    }
}

/// The enrichment fields and the closing brace, from position `i` on.  A
/// record may end right after the raw fields — the input-topic shape — in
/// which case every enrichment field is absent.
pub open spec fn parse_record_tail(t: Seq<char>, i: int, raw: RawModel) -> Option<RecordModel> {
    if 0 <= i && i + 1 == t.len() && t[i] == '}' {
        Some(RecordModel { raw: raw, sentiment: None, keywords: None, named_entities: None })
    } else {
        parse_enrichment_tail(t, i, raw)
    }
}

/// The three enrichment fields and the closing brace, from position `i` on.
pub open spec fn parse_enrichment_tail(t: Seq<char>, i: int, raw: RawModel) -> Option<
    RecordModel,
> {
    match expect_at(t, i, lit_sentiment()) {
        None => None,
        Some(i7) => match parse_opt_list(t, i7) {
            None => None,
            Some(sentiment) => match expect_at(t, sentiment.1, lit_keywords()) {
                None => None,
                Some(i8) => match parse_opt_list(t, i8) {
                    None => None,
                    Some(keywords) => match expect_at(t, keywords.1, lit_named_entities()) {
                        None => None,
                        Some(i9) => match parse_opt_list(t, i9) {
                            None => None,
                            Some(named_entities) => if named_entities.1 + 1 == t.len() && t[
                                named_entities.1
                            ] == '}' {
                                Some(
                                    RecordModel {
                                        raw: raw,
                                        sentiment: sentiment.0,
                                        keywords: keywords.0,
                                        named_entities: named_entities.0,
                                    },
                                )
                            } else {
                                None
                            },
                        },
                    },
                },
            },
        },
    }
}

/// Relies on std's String::push: it appends exactly the one character.
#[verifier::external_body]
fn push_char(s: &mut String, c: char)
    ensures
        final(s)@ == old(s)@.push(c),
{
    s.push(c);
}

/// The string holding the given characters.
fn string_of(chars: &Vec<char>) -> (s: String)
    ensures
        s@ == chars@,
{
    let mut s = String::new();
    let mut i: usize = 0;
    proof {
        assert(s@ =~= chars@.take(0));
    }
    while i < chars.len()
        invariant
            i <= chars@.len(),
            s@ == chars@.take(i as int),
        decreases chars@.len() - i,
    {
        push_char(&mut s, chars[i]);
        proof {
            assert(chars@.take(i as int).push(chars@[i as int]) =~= chars@.take((i + 1) as int));
        }
        i = i + 1;
    }
    proof {
        assert(chars@.take(chars@.len() as int) =~= chars@);
    }
    s
}

/// The value of a hexadecimal digit; other characters are refused.
fn hex_value(d: char) -> (r: Option<u32>)
    ensures
        match r {
            Some(v) => hex_val(d) == Some(v as int) && v < 16,
            None => hex_val(d) is None,
        },
{
    let n = d as u32;
    if 48 <= n && n <= 57 {
        Some(n - 48)
    } else if 97 <= n && n <= 102 {
        Some(n - 87)
    } else {
        None
    }
}

/// The value of the four hexadecimal digits starting at `i`.
fn hex4_exec(t: &Vec<char>, i: usize) -> (r: Option<u32>)
    requires
        i + 4 <= t@.len(),
    ensures
        match r {
            Some(v) => hex4(t@, i as int) == Some(v as int) && v < 65536,
            None => hex4(t@, i as int) is None,
        },
{
    let _bound = t.len();
    let Some(a) = hex_value(t[i]) else { return None };
    let Some(b) = hex_value(t[i + 1]) else { return None };
    let Some(c) = hex_value(t[i + 2]) else { return None };
    let Some(d) = hex_value(t[i + 3]) else { return None };
    Some(a * 4096 + b * 256 + c * 16 + d)
}

/// The character a code letter stands for; an unknown code is refused.
fn unescape_code(d: char) -> (r: Option<char>)
    ensures
        r == unesc_code(d),
{
    if d == '"' || d == '\\' {
        Some(d)
    } else if d == 'n' {
        Some('\n')
    } else if d == 't' {
        Some('\t')
    } else if d == 'r' {
        Some('\r')
    } else {
        None
    }
}

/// Whether the literal stands at position `i` of the text.
fn expect_lit(t: &Vec<char>, i: usize, lit: &str) -> (r: Option<usize>)
    ensures
        match r {
            Some(j) => expect_at(t@, i as int, lit@) == Some(j as int) && j <= t@.len(),
            None => expect_at(t@, i as int, lit@) is None,
        },
{
    let n = lit.unicode_len();
    if i > t.len() || n > t.len() - i {
        return None;
    }
    let mut k: usize = 0;
    while k < n
        invariant
            n == lit@.len(),
            i + n <= t@.len(),
            t@.len() <= usize::MAX,
            k <= n,
            forall|m: int| 0 <= m < k ==> t@[i + m] == lit@[m],
        decreases n - k,
    {
        proof {
            assert(i + k < t@.len());
        }
        if t[i + k] != lit.get_char(k) {
            proof {
                assert(t@.subrange(i as int, i + lit@.len())[k as int] != lit@[k as int]);
            }
            return None;
        }
        k = k + 1;
    }
    proof {
        assert(t@.subrange(i as int, i + lit@.len()) =~= lit@);
    }
    Some(i + n)
}

/// Reads an escaped string body up to its closing quote.
fn scan_string(t: &Vec<char>, i: usize) -> (r: Option<(Vec<char>, usize)>)
    ensures
        match r {
            Some(p) => scan_str(t@, i as int) == Some((p.0@, p.1 as int)) && p.1 <= t@.len(),
            None => scan_str(t@, i as int) is None,
        },
    decreases t@.len() - i,
{
    if i >= t.len() {
        return None;
    }
    let c = t[i];
    if c == '"' {
        let empty: Vec<char> = Vec::new();
        proof {
            assert(empty@ =~= Seq::<char>::empty());
        }
        return Some((empty, i + 1));
    }
    if c == '\\' {
        if i + 1 < t.len() {
            if t[i + 1] == 'u' {
                if t.len() - i > 5 {
                    match hex4_exec(t, i + 2) {
                        Some(v) => {
                            if v < 128 {
                                let u = (v as u8) as char;
                                match scan_string(t, i + 6) {
                                    Some((mut s, j)) => {
                                        let ghost tail = s@;
                                        s.insert(0, u);
                                        proof {
                                            assert(s@ =~= seq![u] + tail);
                                        }
                                        Some((s, j))
                                    },
                                    None => None,
                                }
                            } else {
                                None
                            }
                        },
                        None => None,
                    }
                } else {
                    None
                }
            } else {
                match unescape_code(t[i + 1]) {
                    Some(u) => match scan_string(t, i + 2) {
                        Some((mut s, j)) => {
                            let ghost tail = s@;
                            s.insert(0, u);
                            proof {
                                assert(s@ =~= seq![u] + tail);
                            }
                            Some((s, j))
                        },
                        None => None,
                    },
                    None => None,
                }
            }
        } else {
            None
        }
    } else {
        match scan_string(t, i + 1) {
            Some((mut s, j)) => {
                let ghost tail = s@;
                s.insert(0, c);
                proof {
                    assert(s@ =~= seq![t@[i as int]] + tail);
                }
                Some((s, j))
            },
            None => None,
        }
    }
}

/// A quoted string at position `i`, as a string value.
fn parse_string_exec(t: &Vec<char>, i: usize) -> (r: Option<(String, usize)>)
    ensures
        match r {
            Some(p) => parse_string(t@, i as int) == Some((p.0@, p.1 as int)) && p.1 <= t@.len(),
            None => parse_string(t@, i as int) is None,
        },
{
    if i < t.len() && t[i] == '"' {
        match scan_string(t, i + 1) {
            Some((chars, j)) => Some((string_of(&chars), j)),
            None => None,
        }
    } else {
        None
    }
}

proof fn lemma_views_of_strings_insert0(v: Seq<String>, s: String)
    ensures
        views_of_strings(v.insert(0, s)) == seq![s@] + views_of_strings(v),
{
    assert(views_of_strings(v.insert(0, s)) =~= seq![s@] + views_of_strings(v));
}

/// The items of a non-empty list, up to and past the closing bracket.
fn parse_items_exec(t: &Vec<char>, i: usize) -> (r: Option<(Vec<String>, usize)>)
    ensures
        match r {
            Some(p) => parse_items(t@, i as int) == Some((views_of_strings(p.0@), p.1 as int))
                && p.1 <= t@.len(),
            None => parse_items(t@, i as int) is None,
        },
    decreases t@.len() - i,
{
    match parse_string_exec(t, i) {
        Some((s, j)) => {
            if j < t.len() && t[j] == ']' {
                let mut items: Vec<String> = Vec::new();
                items.push(s);
                proof {
                    assert(views_of_strings(items@) =~= seq![items@[0]@]);
                }
                Some((items, j + 1))
            } else if j < t.len() && t[j] == ',' {
                proof {
                    lemma_scan_str_bound(t@, i + 1);
                }
                match parse_items_exec(t, j + 1) {
                    Some((mut items, k)) => {
                        let ghost tail = items@;
                        items.insert(0, s);
                        proof {
                            lemma_views_of_strings_insert0(tail, items@[0]);
                        }
                        Some((items, k))
                    },
                    None => None,
                }
            } else {
                None
            }
        },
        None => None,
    }
}

/// A bracketed list at position `i`.
fn parse_list_exec(t: &Vec<char>, i: usize) -> (r: Option<(Vec<String>, usize)>)
    ensures
        match r {
            Some(p) => parse_list(t@, i as int) == Some((views_of_strings(p.0@), p.1 as int))
                && p.1 <= t@.len(),
            None => parse_list(t@, i as int) is None,
        },
{
    if i < t.len() && i + 1 < t.len() && t[i] == '[' {
        if t[i + 1] == ']' {
            let empty: Vec<String> = Vec::new();
            proof {
                assert(views_of_strings(empty@) =~= Seq::<Seq<char>>::empty());
            }
            Some((empty, i + 2))
        } else {
            parse_items_exec(t, i + 1)
        }
    } else {
        None
    }
}

/// An optional list at position `i`: `null` or a bracketed list.
fn parse_opt_list_exec(t: &Vec<char>, i: usize) -> (r: Option<(Option<Vec<String>>, usize)>)
    ensures
        match r {
            Some(p) => parse_opt_list(t@, i as int) == Some(
                (crate::record::view_of_opt_strings(p.0), p.1 as int),
            ) && p.1 <= t@.len(),
            None => parse_opt_list(t@, i as int) is None,
        },
{
    match expect_lit(t, i, "null") {
        Some(j) => {
            proof {
                reveal_strlit("null");
                assert("null"@ =~= null_lit());
            }
            Some((None, j))
        },
        None => {
            proof {
                reveal_strlit("null");
                assert("null"@ =~= null_lit());
            }
            match parse_list_exec(t, i) {
                Some((xs, j)) => Some((Some(xs), j)),
                None => None,
            }
        },
    }
}

/// Parses the canonical wire text into a record.  Exactly the canonical
/// shape is accepted; anything else is malformed.
pub fn decode(t: &Vec<char>) -> (r: Result<EnrichedRecord, DecodeError>)
    ensures
        match r {
            Ok(rec) => parse_record(t@) == Some(rec@),
            Err(e) => parse_record(t@) is None && e == DecodeError::Malformed,
        },
{
    let Some(i1) = expect_lit(t, 0, "{\"created_at\":") else {
        return Err(DecodeError::Malformed);
    };
    let Some((created_at, p1)) = parse_string_exec(t, i1) else {
        return Err(DecodeError::Malformed);
    };
    let Some(i2) = expect_lit(t, p1, ",\"text\":") else {
        return Err(DecodeError::Malformed);
    };
    let Some((text, p2)) = parse_string_exec(t, i2) else {
        return Err(DecodeError::Malformed);
    };
    let Some(i3) = expect_lit(t, p2, ",\"languages\":") else {
        return Err(DecodeError::Malformed);
    };
    let Some((languages, p3)) = parse_list_exec(t, i3) else {
        return Err(DecodeError::Malformed);
    };
    let Some(i4) = expect_lit(t, p3, ",\"hashtags\":") else {
        return Err(DecodeError::Malformed);
    };
    let Some((hashtags, p4)) = parse_list_exec(t, i4) else {
        return Err(DecodeError::Malformed);
    };
    let Some(i5) = expect_lit(t, p4, ",\"urls\":") else {
        return Err(DecodeError::Malformed);
    };
    let Some((urls, p5)) = parse_list_exec(t, i5) else {
        return Err(DecodeError::Malformed);
    };
    let Some(i6) = expect_lit(t, p5, ",\"hostnames\":") else {
        return Err(DecodeError::Malformed);
    };
    let Some((hostnames, p6)) = parse_list_exec(t, i6) else {
        return Err(DecodeError::Malformed);
    };
    if p6 < t.len() && p6 + 1 == t.len() && t[p6] == '}' {
        return Ok(
            EnrichedRecord {
                created_at,
                text,
                languages,
                hashtags,
                urls,
                hostnames,
                sentiment: None,
                keywords: None,
                named_entities: None,
            },
        );
    }
    let Some(i7) = expect_lit(t, p6, ",\"sentiment\":") else {
        return Err(DecodeError::Malformed);
    };
    let Some((sentiment, p7)) = parse_opt_list_exec(t, i7) else {
        return Err(DecodeError::Malformed);
    };
    let Some(i8) = expect_lit(t, p7, ",\"keywords\":") else {
        return Err(DecodeError::Malformed);
    };
    let Some((keywords, p8)) = parse_opt_list_exec(t, i8) else {
        return Err(DecodeError::Malformed);
    };
    let Some(i9) = expect_lit(t, p8, ",\"named_entities\":") else {
        return Err(DecodeError::Malformed);
    };
    let Some((named_entities, p9)) = parse_opt_list_exec(t, i9) else {
        return Err(DecodeError::Malformed);
    };
    if p9 < t.len() && p9 + 1 == t.len() && t[p9] == '}' {
        Ok(
            EnrichedRecord {
                created_at,
                text,
                languages,
                hashtags,
                urls,
                hostnames,
                sentiment,
                keywords,
                named_entities,
            },
        )
    } else {
        Err(DecodeError::Malformed)
    }
}

proof fn lemma_index_of_suffix(t: Seq<char>, i: int, x: Seq<char>, k: int)
    requires
        0 <= i <= t.len(),
        t.subrange(i, t.len() as int) == x,
        0 <= k < x.len(),
    ensures
        t[i + k] == x[k],
{
    assert(t.subrange(i, t.len() as int)[k] == t[i + k]);
}

proof fn lemma_suffix_shift(t: Seq<char>, i: int, x: Seq<char>, d: int)
    requires
        0 <= i <= t.len(),
        t.subrange(i, t.len() as int) == x,
        0 <= d <= x.len(),
    ensures
        t.subrange(i + d, t.len() as int) == x.subrange(d, x.len() as int),
{
    assert forall|k: int| 0 <= k < x.len() - d implies #[trigger] t[i + d + k] == x[d + k] by {
        assert(t.subrange(i, t.len() as int)[d + k] == t[i + d + k]);
    }
    assert(t.subrange(i + d, t.len() as int) =~= x.subrange(d, x.len() as int));
}

proof fn lemma_hex_digit_val(n: int)
    requires
        0 <= n < 16,
    ensures
        hex_val(hex_digit(n)) == Some(n),
{
}

/// The literal at the head of the suffix is matched and consumed.
proof fn lemma_peel_lit(t: Seq<char>, i: int, lit: Seq<char>, rest: Seq<char>)
    requires
        0 <= i <= t.len(),
        t.subrange(i, t.len() as int) == lit + rest,
    ensures
        expect_at(t, i, lit) == Some(i + lit.len()),
        i + lit.len() <= t.len(),
        t.subrange(i + lit.len(), t.len() as int) == rest,
{
    let x = lit + rest;
    assert(t.len() - i == x.len());
    assert forall|k: int| 0 <= k < lit.len() implies t[i + k] == lit[k] by {
        lemma_index_of_suffix(t, i, x, k);
    }
    assert(t.subrange(i, i + lit.len()) =~= lit);
    lemma_suffix_shift(t, i, x, lit.len() as int);
    assert(x.subrange(lit.len() as int, x.len() as int) =~= rest);
}

/// The escaped body at the head of the suffix scans back to the original
/// string, stopping at the closing quote.
proof fn lemma_peel_scan(t: Seq<char>, i: int, s: Seq<char>, rest: Seq<char>)
    requires
        0 <= i <= t.len(),
        t.subrange(i, t.len() as int) == esc(s) + seq!['"'] + rest,
    ensures
        scan_str(t, i) == Some((s, i + esc(s).len() + 1)),
        i + esc(s).len() + 1 <= t.len(),
        t.subrange(i + esc(s).len() + 1, t.len() as int) == rest,
    decreases s.len(),
{
    let x = esc(s) + seq!['"'] + rest;
    assert(t.len() - i == x.len());
    if s.len() == 0 {
        assert(esc(s) == Seq::<char>::empty());
        assert(x[0] == '"');
        lemma_index_of_suffix(t, i, x, 0);
        lemma_suffix_shift(t, i, x, 1);
        assert(x.subrange(1, x.len() as int) =~= rest);
    } else {
        let c = s[0];
        let s2 = s.drop_first();
        assert(esc(s) == esc_char(c) + esc(s2));
        if needs_escape(c) {
            assert(esc_char(c) == seq!['\\', esc_code(c)]);
            assert(x[0] == '\\');
            assert(x[1] == esc_code(c));
            lemma_index_of_suffix(t, i, x, 0);
            lemma_index_of_suffix(t, i, x, 1);
            assert(unesc_code(esc_code(c)) == Some(c));
            lemma_suffix_shift(t, i, x, 2);
            assert(x.subrange(2, x.len() as int) =~= esc(s2) + seq!['"'] + rest);
            lemma_peel_scan(t, i + 2, s2, rest);
            assert(seq![c] + s2 =~= s);
            assert(esc(s).len() == 2 + esc(s2).len());
        } else if is_other_control(c) {
            let cu = c as u32 as int;
            assert(esc_char(c) == seq!['\\', 'u', '0', '0', hex_digit(cu / 16), hex_digit(
                cu % 16,
            )]);
            assert(x[0] == '\\');
            assert(x[1] == 'u');
            assert(x[2] == '0');
            assert(x[3] == '0');
            assert(x[4] == hex_digit(cu / 16));
            assert(x[5] == hex_digit(cu % 16));
            lemma_index_of_suffix(t, i, x, 0);
            lemma_index_of_suffix(t, i, x, 1);
            lemma_index_of_suffix(t, i, x, 2);
            lemma_index_of_suffix(t, i, x, 3);
            lemma_index_of_suffix(t, i, x, 4);
            lemma_index_of_suffix(t, i, x, 5);
            lemma_hex_digit_val(cu / 16);
            lemma_hex_digit_val(cu % 16);
            assert(hex_val('0') == Some(0int));
            assert(hex4(t, i + 2) == Some(cu));
            assert((cu as u8) as char == c);
            lemma_suffix_shift(t, i, x, 6);
            assert(x.subrange(6, x.len() as int) =~= esc(s2) + seq!['"'] + rest);
            lemma_peel_scan(t, i + 6, s2, rest);
            assert(seq![c] + s2 =~= s);
            assert(esc(s).len() == 6 + esc(s2).len());
        } else {
            assert(esc_char(c) == seq![c]);
            assert(x[0] == c);
            lemma_index_of_suffix(t, i, x, 0);
            lemma_suffix_shift(t, i, x, 1);
            assert(x.subrange(1, x.len() as int) =~= esc(s2) + seq!['"'] + rest);
            lemma_peel_scan(t, i + 1, s2, rest);
            assert(seq![t[i]] + s2 =~= s);
            assert(esc(s).len() == 1 + esc(s2).len());
        }
    }
}

/// The quoted string at the head of the suffix parses back to itself.
proof fn lemma_peel_str(t: Seq<char>, i: int, s: Seq<char>, rest: Seq<char>)
    requires
        0 <= i <= t.len(),
        t.subrange(i, t.len() as int) == enc_str(s) + rest,
    ensures
        parse_string(t, i) == Some((s, i + enc_str(s).len())),
        i + enc_str(s).len() <= t.len(),
        t.subrange(i + enc_str(s).len(), t.len() as int) == rest,
{
    let x = enc_str(s) + rest;
    assert(t.len() - i == x.len());
    assert(x[0] == '"');
    lemma_index_of_suffix(t, i, x, 0);
    lemma_suffix_shift(t, i, x, 1);
    assert(x.subrange(1, x.len() as int) =~= esc(s) + seq!['"'] + rest);
    lemma_peel_scan(t, i + 1, s, rest);
    assert(enc_str(s).len() == esc(s).len() + 2);
}

/// The items at the head of the suffix, closed by a bracket, parse back
/// to the item list.
proof fn lemma_peel_items(t: Seq<char>, i: int, xs: Seq<Seq<char>>, rest: Seq<char>)
    requires
        xs.len() >= 1,
        0 <= i <= t.len(),
        t.subrange(i, t.len() as int) == enc_items(xs) + seq![']'] + rest,
    ensures
        parse_items(t, i) == Some((xs, i + enc_items(xs).len() + 1)),
        i + enc_items(xs).len() + 1 <= t.len(),
        t.subrange(i + enc_items(xs).len() + 1, t.len() as int) == rest,
    decreases xs.len(),
{
    let x = enc_items(xs) + seq![']'] + rest;
    assert(t.len() - i == x.len());
    if xs.len() == 1 {
        assert(enc_items(xs) == enc_str(xs[0]));
        assert(x =~= enc_str(xs[0]) + (seq![']'] + rest));
        lemma_peel_str(t, i, xs[0], seq![']'] + rest);
        let j = i + enc_str(xs[0]).len();
        lemma_index_of_suffix(t, j, seq![']'] + rest, 0);
        assert(t[j] == ']');
        assert(seq![xs[0]] =~= xs);
        lemma_suffix_shift(t, j, seq![']'] + rest, 1);
        assert((seq![']'] + rest).subrange(1, rest.len() as int + 1) =~= rest);
    } else {
        let xs2 = xs.drop_first();
        assert(enc_items(xs) == enc_str(xs[0]) + (seq![','] + enc_items(xs2)));
        assert(x =~= enc_str(xs[0]) + (seq![','] + enc_items(xs2) + seq![']'] + rest));
        lemma_peel_str(t, i, xs[0], seq![','] + enc_items(xs2) + seq![']'] + rest);
        let j = i + enc_str(xs[0]).len();
        let y = seq![','] + enc_items(xs2) + seq![']'] + rest;
        lemma_index_of_suffix(t, j, y, 0);
        assert(t[j] == ',');
        lemma_suffix_shift(t, j, y, 1);
        assert(y.subrange(1, y.len() as int) =~= enc_items(xs2) + seq![']'] + rest);
        lemma_peel_items(t, j + 1, xs2, rest);
        assert(seq![xs[0]] + xs2 =~= xs);
        assert(enc_items(xs).len() == enc_str(xs[0]).len() + 1 + enc_items(xs2).len());
    }
}

/// The bracketed list at the head of the suffix parses back to its items.
proof fn lemma_peel_list(t: Seq<char>, i: int, xs: Seq<Seq<char>>, rest: Seq<char>)
    requires
        0 <= i <= t.len(),
        t.subrange(i, t.len() as int) == enc_list(xs) + rest,
    ensures
        parse_list(t, i) == Some((xs, i + enc_list(xs).len())),
        i + enc_list(xs).len() <= t.len(),
        t.subrange(i + enc_list(xs).len(), t.len() as int) == rest,
{
    let x = enc_list(xs) + rest;
    assert(t.len() - i == x.len());
    if xs.len() == 0 {
        assert(enc_list(xs) == seq!['[', ']']);
        assert(x[0] == '[');
        assert(x[1] == ']');
        lemma_index_of_suffix(t, i, x, 0);
        lemma_index_of_suffix(t, i, x, 1);
        lemma_suffix_shift(t, i, x, 2);
        assert(x.subrange(2, x.len() as int) =~= rest);
        assert(parse_list(t, i) == Some((Seq::<Seq<char>>::empty(), i + 2)));
        assert(Seq::<Seq<char>>::empty() =~= xs);
    } else {
        assert(enc_list(xs) == seq!['['] + (enc_items(xs) + seq![']']));
        assert(x[0] == '[');
        assert(enc_items(xs)[0] == enc_str(xs[0])[0]);
        assert(enc_str(xs[0])[0] == '"');
        assert(x[1] == '"');
        lemma_index_of_suffix(t, i, x, 0);
        lemma_index_of_suffix(t, i, x, 1);
        lemma_suffix_shift(t, i, x, 1);
        assert(x.subrange(1, x.len() as int) =~= enc_items(xs) + seq![']'] + rest);
        lemma_peel_items(t, i + 1, xs, rest);
        assert(enc_list(xs).len() == enc_items(xs).len() + 2);
    }
}

/// The optional list at the head of the suffix parses back to itself.
proof fn lemma_peel_opt(t: Seq<char>, i: int, o: Option<Seq<Seq<char>>>, rest: Seq<char>)
    requires
        0 <= i <= t.len(),
        t.subrange(i, t.len() as int) == enc_opt_list(o) + rest,
    ensures
        parse_opt_list(t, i) == Some((o, i + enc_opt_list(o).len())),
        i + enc_opt_list(o).len() <= t.len(),
        t.subrange(i + enc_opt_list(o).len(), t.len() as int) == rest,
{
    match o {
        None => {
            assert(enc_opt_list(o) == null_lit());
            lemma_peel_lit(t, i, null_lit(), rest);
        },
        Some(xs) => {
            let x = enc_opt_list(o) + rest;
            assert(x[0] == '[');
            lemma_index_of_suffix(t, i, x, 0);
            if expect_at(t, i, null_lit()) is Some {
                assert(t.subrange(i, i + 4)[0] == t[i]);
                assert(null_lit()[0] == 'n');
                assert(false);
            }
            lemma_peel_list(t, i, xs, rest);
        },
    }
}

#[verifier::rlimit(100)]
proof fn lemma_roundtrip_assoc(m: RecordModel)
    ensures
        enc_record(m) == lit_created_at() + (enc_str(m.raw.created_at) + (lit_text() + (enc_str(
            m.raw.text,
        ) + (lit_languages() + (enc_list(m.raw.languages) + (lit_hashtags() + (enc_list(
            m.raw.hashtags,
        ) + (lit_urls() + (enc_list(m.raw.urls) + (lit_hostnames() + (enc_list(m.raw.hostnames) + (
        lit_sentiment() + (enc_opt_list(m.sentiment) + (lit_keywords() + (enc_opt_list(m.keywords)
            + (lit_named_entities() + (enc_opt_list(m.named_entities) + seq!['}']))))))))))))))))),
{
    let c2 = enc_str(m.raw.created_at);
    let c4 = enc_str(m.raw.text);
    let c6 = enc_list(m.raw.languages);
    let c8 = enc_list(m.raw.hashtags);
    let c10 = enc_list(m.raw.urls);
    let c12 = enc_list(m.raw.hostnames);
    let c14 = enc_opt_list(m.sentiment);
    let c16 = enc_opt_list(m.keywords);
    let c18 = enc_opt_list(m.named_entities);
    let r18 = seq!['}'];
    let r17 = c18 + r18;
    let r16 = lit_named_entities() + r17;
    let r15 = c16 + r16;
    let r14 = lit_keywords() + r15;
    let r13 = c14 + r14;
    let r12 = lit_sentiment() + r13;
    let r11 = c12 + r12;
    let r10 = lit_hostnames() + r11;
    let r9 = c10 + r10;
    let r8 = lit_urls() + r9;
    let r7 = c8 + r8;
    let r6 = lit_hashtags() + r7;
    let r5 = c6 + r6;
    let r4 = lit_languages() + r5;
    let r3 = c4 + r4;
    let r2 = lit_text() + r3;
    let r1 = c2 + r2;
    let q1 = lit_created_at();
    let q2 = q1 + c2;
    let q3 = q2 + lit_text();
    let q4 = q3 + c4;
    let q5 = q4 + lit_languages();
    let q6 = q5 + c6;
    let q7 = q6 + lit_hashtags();
    let q8 = q7 + c8;
    let q9 = q8 + lit_urls();
    let q10 = q9 + c10;
    let q11 = q10 + lit_hostnames();
    let q12 = q11 + c12;
    let q13 = q12 + lit_sentiment();
    let q14 = q13 + c14;
    let q15 = q14 + lit_keywords();
    let q16 = q15 + c16;
    let q17 = q16 + lit_named_entities();
    let q18 = q17 + c18;
    assert(enc_record(m) == q18 + r18);
    assert(q18 + r18 =~= q17 + r17);
    assert(q17 + r17 =~= q16 + r16);
    assert(q16 + r16 =~= q15 + r15);
    assert(q15 + r15 =~= q14 + r14);
    assert(q14 + r14 =~= q13 + r13);
    assert(q13 + r13 =~= q12 + r12);
    assert(q12 + r12 =~= q11 + r11);
    assert(q11 + r11 =~= q10 + r10);
    assert(q10 + r10 =~= q9 + r9);
    assert(q9 + r9 =~= q8 + r8);
    assert(q8 + r8 =~= q7 + r7);
    assert(q7 + r7 =~= q6 + r6);
    assert(q6 + r6 =~= q5 + r5);
    assert(q5 + r5 =~= q4 + r4);
    assert(q4 + r4 =~= q3 + r3);
    assert(q3 + r3 =~= q2 + r2);
    assert(q2 + r2 =~= q1 + r1);
}

/// Round trip: the canonical text of any record parses back to exactly
/// that record.  Every encoded record survives one publication and one
/// consumption unchanged.
#[verifier::spinoff_prover]
#[verifier::rlimit(100)]
pub proof fn lemma_decode_encode_roundtrip(m: RecordModel)
    ensures
        parse_record(enc_record(m)) == Some(m),
{
    let t = enc_record(m);
    let c2 = enc_str(m.raw.created_at);
    let c4 = enc_str(m.raw.text);
    let c6 = enc_list(m.raw.languages);
    let c8 = enc_list(m.raw.hashtags);
    let c10 = enc_list(m.raw.urls);
    let c12 = enc_list(m.raw.hostnames);
    let c14 = enc_opt_list(m.sentiment);
    let c16 = enc_opt_list(m.keywords);
    let c18 = enc_opt_list(m.named_entities);
    let r18 = seq!['}'];
    let r17 = c18 + r18;
    let r16 = lit_named_entities() + r17;
    let r15 = c16 + r16;
    let r14 = lit_keywords() + r15;
    let r13 = c14 + r14;
    let r12 = lit_sentiment() + r13;
    let r11 = c12 + r12;
    let r10 = lit_hostnames() + r11;
    let r9 = c10 + r10;
    let r8 = lit_urls() + r9;
    let r7 = c8 + r8;
    let r6 = lit_hashtags() + r7;
    let r5 = c6 + r6;
    let r4 = lit_languages() + r5;
    let r3 = c4 + r4;
    let r2 = lit_text() + r3;
    let r1 = c2 + r2;
    lemma_roundtrip_assoc(m);
    assert(t.subrange(0, t.len() as int) =~= t);
    lemma_peel_lit(t, 0, lit_created_at(), r1);
    let p1 = lit_created_at().len() as int;
    lemma_peel_str(t, p1, m.raw.created_at, r2);
    let p2 = p1 + c2.len();
    lemma_peel_lit(t, p2, lit_text(), r3);
    let p3 = p2 + lit_text().len();
    lemma_peel_str(t, p3, m.raw.text, r4);
    let p4 = p3 + c4.len();
    lemma_peel_lit(t, p4, lit_languages(), r5);
    let p5 = p4 + lit_languages().len();
    lemma_peel_list(t, p5, m.raw.languages, r6);
    let p6 = p5 + c6.len();
    lemma_peel_lit(t, p6, lit_hashtags(), r7);
    let p7 = p6 + lit_hashtags().len();
    lemma_peel_list(t, p7, m.raw.hashtags, r8);
    let p8 = p7 + c8.len();
    lemma_peel_lit(t, p8, lit_urls(), r9);
    let p9 = p8 + lit_urls().len();
    lemma_peel_list(t, p9, m.raw.urls, r10);
    let p10 = p9 + c10.len();
    lemma_peel_lit(t, p10, lit_hostnames(), r11);
    let p11 = p10 + lit_hostnames().len();
    lemma_peel_list(t, p11, m.raw.hostnames, r12);
    let p12 = p11 + c12.len();
    lemma_roundtrip_tail(t, p12, m.raw, m);
    assert(parse_record(t) == Some(m));
}

#[verifier::rlimit(100)]
proof fn lemma_roundtrip_tail(t: Seq<char>, i: int, raw: RawModel, m: RecordModel)
    requires
        m.raw == raw,
        0 <= i <= t.len(),
        t.subrange(i, t.len() as int) == lit_sentiment() + (enc_opt_list(m.sentiment) + (
        lit_keywords() + (enc_opt_list(m.keywords) + (lit_named_entities() + (enc_opt_list(
            m.named_entities,
        ) + seq!['}']))))),
    ensures
        parse_record_tail(t, i, raw) == Some(m),
{
    let r18 = seq!['}'];
    let r17 = enc_opt_list(m.named_entities) + r18;
    let r16 = lit_named_entities() + r17;
    let r15 = enc_opt_list(m.keywords) + r16;
    let r14 = lit_keywords() + r15;
    let r13 = enc_opt_list(m.sentiment) + r14;
    lemma_peel_lit(t, i, lit_sentiment(), r13);
    let p13 = i + lit_sentiment().len();
    lemma_peel_opt(t, p13, m.sentiment, r14);
    let p14 = p13 + enc_opt_list(m.sentiment).len();
    lemma_peel_lit(t, p14, lit_keywords(), r15);
    let p15 = p14 + lit_keywords().len();
    lemma_peel_opt(t, p15, m.keywords, r16);
    let p16 = p15 + enc_opt_list(m.keywords).len();
    lemma_peel_lit(t, p16, lit_named_entities(), r17);
    let p17 = p16 + lit_named_entities().len();
    lemma_peel_opt(t, p17, m.named_entities, r18);
    let p18 = p17 + enc_opt_list(m.named_entities).len();
    assert(t.subrange(p18, t.len() as int) == seq!['}']);
    assert(t.subrange(p18, t.len() as int)[0] == t[p18]);
    assert(t[p18] == '}');
    assert(p18 + 1 == t.len());
    assert(parse_record_tail(t, i, raw) == Some(m));
}

/// Appends one escaped character.
proof fn lemma_esc_push(s: Seq<char>, c: char)
    ensures
        esc(s.push(c)) == esc(s) + esc_char(c),
    decreases s.len(),
{
    if s.len() == 0 {
        assert(s.push(c)[0] == c);
        assert(s.push(c).drop_first() =~= Seq::<char>::empty());
        assert(esc(Seq::<char>::empty()) == Seq::<char>::empty());
        assert(esc(s.push(c)) == esc_char(c) + esc(Seq::<char>::empty()));
        assert(esc(s.push(c)) =~= esc_char(c));
        assert(esc(s) + esc_char(c) =~= esc_char(c));
    } else {
        assert(s.push(c)[0] == s[0]);
        assert(s.push(c).drop_first() =~= s.drop_first().push(c));
        lemma_esc_push(s.drop_first(), c);
        assert(esc(s.push(c)) =~= esc(s) + esc_char(c));
    }
}

/// Appends one more item to a non-empty list body.
proof fn lemma_enc_items_push(xs: Seq<Seq<char>>, x: Seq<char>)
    requires
        xs.len() >= 1,
    ensures
        enc_items(xs.push(x)) == enc_items(xs) + (seq![','] + enc_str(x)),
    decreases xs.len(),
{
    if xs.len() == 1 {
        assert(xs.push(x)[0] == xs[0]);
        assert(xs.push(x).drop_first() =~= seq![x]);
        assert(enc_items(seq![x]) == enc_str(x));
        assert(enc_items(xs.push(x)) =~= enc_items(xs) + (seq![','] + enc_str(x)));
    } else {
        assert(xs.push(x)[0] == xs[0]);
        assert(xs.push(x).drop_first() =~= xs.drop_first().push(x));
        lemma_enc_items_push(xs.drop_first(), x);
        assert(enc_items(xs.push(x)) =~= enc_items(xs) + (seq![','] + enc_str(x)));
    }
}

/// Appends the characters of a literal.
fn push_lit(out: &mut Vec<char>, lit: &str)
    ensures
        final(out)@ == old(out)@ + lit@,
{
    let n = lit.unicode_len();
    let mut i: usize = 0;
    proof {
        assert(out@ =~= old(out)@ + lit@.take(0));
    }
    while i < n
        invariant
            n == lit@.len(),
            i <= n,
            out@ == old(out)@ + lit@.take(i as int),
        decreases n - i,
    {
        out.push(lit.get_char(i));
        proof {
            assert(old(out)@ + lit@.take(i as int) + seq![lit@[i as int]] =~= old(out)@
                + lit@.take((i + 1) as int));
        }
        i = i + 1;
    }
    proof {
        assert(old(out)@ + lit@.take(lit@.len() as int) =~= old(out)@ + lit@);
    }
}

/// The hexadecimal digit for a value below sixteen.
fn hex_digit_exec(n: u32) -> (r: char)
    requires
        n < 16,
    ensures
        r == hex_digit(n as int),
{
    if n < 10 {
        ((48 + n) as u8) as char
    } else {
        ((87 + n) as u8) as char
    }
}

/// The code letter standing after the backslash for an escaped character.
fn escape_code(c: char) -> (r: char)
    ensures
        r == esc_code(c),
{
    if c == '\n' {
        'n'
    } else if c == '\t' {
        't'
    } else if c == '\r' {
        'r'
    } else {
        c
    }
}

/// Appends a quoted, escaped string.
fn push_str_enc(out: &mut Vec<char>, s: &String)
    ensures
        final(out)@ == old(out)@ + enc_str(s@),
{
    out.push('"');
    let ghost mid = out@;
    let slice = s.as_str();
    let n = slice.unicode_len();
    let mut i: usize = 0;
    proof {
        assert(esc(s@.take(0)) =~= Seq::<char>::empty());
        assert(out@ =~= mid + esc(s@.take(0)));
    }
    while i < n
        invariant
            n == s@.len(),
            i <= n,
            slice@ == s@,
            out@ == mid + esc(s@.take(i as int)),
        decreases n - i,
    {
        let c = slice.get_char(i);
        proof {
            assert(s@.take((i + 1) as int) =~= s@.take(i as int).push(s@[i as int]));
            lemma_esc_push(s@.take(i as int), s@[i as int]);
        }
        if c == '"' || c == '\\' || c == '\n' || c == '\t' || c == '\r' {
            out.push('\\');
            let code = escape_code(c);
            out.push(code);
            proof {
                assert(mid + esc(s@.take(i as int)) + seq!['\\', code] =~= mid + esc(s@.take(
                    (i + 1) as int,
                )));
            }
        } else if (c as u32) < 32 {
            out.push('\\');
            out.push('u');
            out.push('0');
            out.push('0');
            let hi = hex_digit_exec((c as u32) / 16);
            let lo = hex_digit_exec((c as u32) % 16);
            out.push(hi);
            out.push(lo);
            proof {
                assert(mid + esc(s@.take(i as int)) + seq!['\\', 'u', '0', '0', hi, lo] =~= mid
                    + esc(s@.take((i + 1) as int)));
            }
        } else {
            out.push(c);
            proof {
                assert(mid + esc(s@.take(i as int)) + seq![c] =~= mid + esc(s@.take(
                    (i + 1) as int,
                )));
            }
        }
        i = i + 1;
    }
    out.push('"');
    proof {
        assert(s@.take(s@.len() as int) =~= s@);
        assert(out@ =~= old(out)@ + enc_str(s@));
    }
}

/// Appends a bracketed list of quoted strings.
fn push_list_enc(out: &mut Vec<char>, xs: &Vec<String>)
    ensures
        final(out)@ == old(out)@ + enc_list(views_of_strings(xs@)),
{
    out.push('[');
    let n = xs.len();
    if n == 0 {
        out.push(']');
        proof {
            assert(out@ =~= old(out)@ + enc_list(views_of_strings(xs@)));
        }
        return ;
    }
    let ghost vs = views_of_strings(xs@);
    let ghost mid = out@;
    push_str_enc(out, &xs[0]);
    proof {
        assert(vs.take(1)[0] == vs[0]);
        assert(vs.take(1).len() == 1);
        assert(enc_items(vs.take(1)) == enc_str(vs[0]));
        assert(out@ =~= mid + enc_items(vs.take(1)));
    }
    let mut i: usize = 1;
    while i < n
        invariant
            n == xs@.len(),
            1 <= i <= n,
            vs == views_of_strings(xs@),
            out@ == mid + enc_items(vs.take(i as int)),
        decreases n - i,
    {
        out.push(',');
        push_str_enc(out, &xs[i]);
        proof {
            assert(vs.take((i + 1) as int) =~= vs.take(i as int).push(vs[i as int]));
            lemma_enc_items_push(vs.take(i as int), vs[i as int]);
            assert(mid + enc_items(vs.take(i as int)) + seq![','] + enc_str(vs[i as int]) =~= mid
                + enc_items(vs.take((i + 1) as int)));
        }
        i = i + 1;
    }
    out.push(']');
    proof {
        assert(vs.take(vs.len() as int) =~= vs);
        assert(out@ =~= old(out)@ + enc_list(vs));
    }
}

/// Appends an optional list, `null` when absent.
fn push_opt_list_enc(out: &mut Vec<char>, o: &Option<Vec<String>>)
    ensures
        final(out)@ == old(out)@ + enc_opt_list(crate::record::view_of_opt_strings(*o)),
{
    match o {
        None => {
            out.push('n');
            out.push('u');
            out.push('l');
            out.push('l');
            proof {
                assert(out@ =~= old(out)@ + seq!['n', 'u', 'l', 'l']);
            }
        },
        Some(xs) => {
            push_list_enc(out, xs);
        },
    }
}

/// Serializes a record to its canonical wire text.  Encoding is pure: it
/// reads the record and builds the text, nothing else.
#[verifier::rlimit(100)]
pub fn encode(rec: &EnrichedRecord) -> (out: Vec<char>)
    ensures
        out@ == enc_record(rec@),
{
    let mut out: Vec<char> = Vec::new();
    push_lit(&mut out, "{\"created_at\":");
    proof {
        assert(out@ =~= lit_created_at());
    }
    push_str_enc(&mut out, &rec.created_at);
    push_lit(&mut out, ",\"text\":");
    push_str_enc(&mut out, &rec.text);
    push_lit(&mut out, ",\"languages\":");
    push_list_enc(&mut out, &rec.languages);
    push_lit(&mut out, ",\"hashtags\":");
    push_list_enc(&mut out, &rec.hashtags);
    push_lit(&mut out, ",\"urls\":");
    push_list_enc(&mut out, &rec.urls);
    push_lit(&mut out, ",\"hostnames\":");
    push_list_enc(&mut out, &rec.hostnames);
    push_lit(&mut out, ",\"sentiment\":");
    push_opt_list_enc(&mut out, &rec.sentiment);
    push_lit(&mut out, ",\"keywords\":");
    push_opt_list_enc(&mut out, &rec.keywords);
    push_lit(&mut out, ",\"named_entities\":");
    push_opt_list_enc(&mut out, &rec.named_entities);
    let ghost body = out@;
    out.push('}');
    proof {
        assert(out@ =~= body + seq!['}']);
    }
    out
}

} // verus!
